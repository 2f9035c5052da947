//! What the gateway keeps from one request to the next, and the order in which accounts are tried.
use crate::account::{Account, AccountView};
use crate::config::GatewayKey;
use crate::gateway::answer;
use crate::gateway::answer::{AdapterView, AnswerView, DispatchError, ResponseAdapter, UpstreamReply};
use crate::gateway::dispatch;
use crate::gateway::dispatch::{Action, ActionView, Dispatch, DispatchView, Happening};
use crate::gateway::http;
use crate::gateway::http::HttpReply;
use crate::gateway::options::GatewayOptions;
use crate::gateway::request;
use crate::gateway::request::{Handled, ParsedGatewayRequest, RequestView};
use crate::outside;
use crate::text;
use vstd::hash_map::StringHashMap;
use vstd::prelude::*;

verus! {

/// The accounts with the identifier `id`, or those without it, in the order they have.
pub open spec fn having(accounts: Seq<AccountView>, id: Seq<char>, with: bool) -> Seq<AccountView>
    decreases accounts.len(),
{
    if accounts.len() == 0 {
        Seq::empty()
    } else {
        let before = having(accounts.drop_last(), id, with);
        if (accounts.last().id == id) == with {
            before.push(accounts.last())
        } else {
            before
        }
    }
}

/// The accounts, those with the identifier `id` first.
pub open spec fn moved_first(accounts: Seq<AccountView>, id: Seq<char>) -> Seq<AccountView> {
    having(accounts, id, true) + having(accounts, id, false)
}

/// The accounts from the one at `start` on, and then those before it.
pub open spec fn rotated(accounts: Seq<AccountView>, start: int) -> Seq<AccountView> {
    accounts.skip(start) + accounts.take(start)
}

/// The accounts with the identifier `id`, or those without it.
fn pick(accounts: &Vec<Account>, id: &str, with: bool) -> (r: Vec<Account>)
    ensures
        dispatch::account_views(r@) == having(dispatch::account_views(accounts@), id@, with),
{
    let ghost all = dispatch::account_views(accounts@);
    let mut r: Vec<Account> = Vec::new();
    let mut i: usize = 0;
    assert(dispatch::account_views(r@) == having(all.take(0), id@, with));
    while i < accounts.len()
        invariant
            i <= accounts@.len(),
            all == dispatch::account_views(accounts@),
            dispatch::account_views(r@) == having(all.take(i as int), id@, with),
        decreases accounts@.len() - i,
    {
        let ghost before = r@;
        assert(all.take(i + 1).drop_last() == all.take(i as int));
        assert(all.take(i + 1).last() == accounts@[i as int]@);
        if text::same_text(accounts[i].id.as_str(), id) == with {
            r.push(accounts[i].clone());
            assert(dispatch::account_views(r@) == dispatch::account_views(before).push(accounts@[i as int]@));
        }
        i += 1;
    }
    assert(all.take(i as int) == all);
    r
}

/// The accounts, those with the identifier `id` first.
fn move_first(accounts: Vec<Account>, id: &str) -> (r: Vec<Account>)
    ensures
        dispatch::account_views(r@) == moved_first(dispatch::account_views(accounts@), id@),
{
    let mut r: Vec<Account> = pick(&accounts, id, true);
    let mut rest: Vec<Account> = pick(&accounts, id, false);
    let ghost (a, b) = (r@, rest@);
    r.append(&mut rest);
    assert(dispatch::account_views(r@) == dispatch::account_views(a) + dispatch::account_views(b));
    r
}

/// The accounts from the one at `start` on, and then those before it.
fn rotate(accounts: Vec<Account>, start: usize) -> (r: Vec<Account>)
    requires
        start <= accounts@.len(),
    ensures
        dispatch::account_views(r@) == rotated(dispatch::account_views(accounts@), start as int),
{
    let mut head: Vec<Account> = accounts;
    let mut r: Vec<Account> = head.split_off(start);
    r.append(&mut head);
    assert(dispatch::account_views(r@) == rotated(dispatch::account_views(accounts@), start as int));
    r
}

/// What the gateway keeps from one request to the next.
pub struct Gateway {
    key: String,
    base: String,
    cursor: usize,
    affinity: StringHashMap<String>,
}

/// What the gateway keeps.
pub struct GatewayView {
    /// The key that clients show.
    pub key: Seq<char>,
    /// Where the upstream is.
    pub base: Seq<char>,
    /// How many requests have taken their turn among the accounts.
    pub cursor: usize,
    /// The account that gave each response that is remembered.
    pub affinity: Map<Seq<char>, Seq<char>>,
}

impl View for Gateway {
    type V = GatewayView;

    closed spec fn view(&self) -> GatewayView {
        GatewayView {
            key: self.key@,
            base: self.base@,
            cursor: self.cursor,
            affinity: self.affinity@.map_values(|id: String| id@),
        }
    }
}

/// A gateway that has just started.
pub open spec fn started(key: Seq<char>, upstream_base_url: Seq<char>) -> GatewayView {
    GatewayView {
        key,
        base: text::trim_end_char(upstream_base_url, '/'),
        cursor: 0,
        affinity: Map::empty(),
    }
}

/// The order in which accounts are tried for a request with the body `body`: the account that gave
/// the response that the request follows on comes first; a request that follows on none takes the
/// next turn.
pub open spec fn ordered(g: GatewayView, accounts: Seq<AccountView>, body: Seq<u8>) -> Seq<
    AccountView,
> {
    match answer::followed_response(body) {
        Some(previous) => if g.affinity.contains_key(previous) {
            moved_first(accounts, g.affinity[previous])
        } else {
            accounts
        },
        None => if accounts.len() == 0 {
            accounts
        } else {
            rotated(accounts, g.cursor as int % accounts.len() as int)
        },
    }
}

/// The gateway after a request with the body `body` was handed to `count` accounts.
pub open spec fn turned(g: GatewayView, count: nat, body: Seq<u8>) -> GatewayView {
    if count > 0 && answer::followed_response(body) is None {
        GatewayView {
            cursor: if g.cursor == usize::MAX {
                0
            } else {
                (g.cursor + 1) as usize
            },
            ..g
        }
    } else {
        g
    }
}

/// A request before any account has been tried.
pub open spec fn opening(
    g: GatewayView,
    request: RequestView,
    accounts: Seq<AccountView>,
) -> DispatchView {
    dispatch::opened(request, g.base, ordered(g, accounts, request.body))
}

/// The gateway after `reply` came from the account `account_id`.
pub open spec fn remembering(
    g: GatewayView,
    reply: AnswerView,
    adapter: AdapterView,
    account_id: Seq<char>,
) -> GatewayView {
    match answer::remembered(reply, adapter) {
        Some(id) => GatewayView { affinity: g.affinity.insert(id, account_id), ..g },
        None => g,
    }
}

impl Gateway {
    /// A gateway that has handled no request.
    pub fn new(key: GatewayKey, options: &GatewayOptions) -> (r: Gateway)
        ensures
            r@ == started(key.0@, options.upstream_base_url@),
            r@ == (GatewayView {
                key: key.0@,
                base: text::trim_end_char(options.upstream_base_url@, '/'),
                cursor: 0,
                affinity: Map::empty(),
            }),
    {
        let r: Gateway = Gateway {
            key: key.0,
            base: text::trim_end_of(options.upstream_base_url.as_str(), '/'),
            cursor: 0,
            affinity: StringHashMap::new(),
        };
        assert(r@.affinity == Map::<Seq<char>, Seq<char>>::empty());
        r
    }

    /// What the gateway does with a request.
    pub fn handle(&self, request: ParsedGatewayRequest) -> (r: Handled)
        ensures
            r@ == request::handled(request@, self@.key),
    {
        request::handle(request, self.key.as_str())
    }

    /// The accounts in the order in which they are tried.
    fn order(&mut self, accounts: Vec<Account>, body: &[u8]) -> (r: Vec<Account>)
        ensures
            dispatch::account_views(r@) == ordered(old(self)@, dispatch::account_views(accounts@), body@),
            final(self)@ == turned(old(self)@, accounts@.len(), body@),
    {
        match answer::previous_response_id(body) {
            Some(previous) => match self.affinity.get(previous.as_str()) {
                Some(id) => move_first(accounts, id.as_str()),
                None => accounts,
            },
            None => {
                if accounts.len() == 0 {
                    return accounts;
                }
                let start: usize = self.cursor % accounts.len();
                self.cursor = if self.cursor == usize::MAX {
                    0
                } else {
                    self.cursor + 1
                };
                rotate(accounts, start)
            },
        }
    }

    /// Hands a request to the accounts, at the second `now`.
    pub fn dispatch_at(
        &mut self,
        request: ParsedGatewayRequest,
        accounts: Vec<Account>,
        now: i64,
    ) -> (r: (Dispatch, Action))
        ensures
            (r.0@, r.1@) == dispatch::trying(
                opening(old(self)@, request@, dispatch::account_views(accounts@)),
                now as int,
            ),
            r.0@.wf(),
            final(self)@ == turned(old(self)@, accounts@.len(), request@.body),
    {
        let accounts: Vec<Account> = self.order(accounts, request.body.as_slice());
        Dispatch::open_at(request, self.base.clone(), accounts, now)
    }

    /// Hands a request to the accounts now.
    pub fn dispatch_with_accounts(
        &mut self,
        request: ParsedGatewayRequest,
        accounts: Vec<Account>,
    ) -> (r: (Dispatch, Action))
        ensures
            exists|now: int|
                0 <= now <= outside::LAST_SECOND && (r.0@, r.1@) == #[trigger] dispatch::trying(
                    opening(old(self)@, request@, dispatch::account_views(accounts@)),
                    now,
                ),
            r.0@.wf(),
            final(self)@ == turned(old(self)@, accounts@.len(), request@.body),
    {
        let now: i64 = outside::now_seconds();
        self.dispatch_at(request, accounts, now)
    }

    /// Remembers that `account_id` gave the response `id`.
    fn remember(&mut self, id: Option<String>, account_id: String)
        ensures
            final(self)@ == match id {
                Some(id) => GatewayView {
                    affinity: old(self)@.affinity.insert(id@, account_id@),
                    ..old(self)@
                },
                None => old(self)@,
            },
    {
        if let Some(id) = id {
            let ghost before = self.affinity@;
            self.affinity.insert(id, account_id);
            assert(self.affinity@.map_values(|id: String| id@) == before.map_values(
                |id: String| id@,
            ).insert(id@, account_id@));
        }
    }

    /// The answer to a request for which the upstream gave `reply` to the account `account_id`,
    /// with the identifier `spare_id` where one is needed, at the second `now`.
    pub fn finish_at(
        &mut self,
        reply: UpstreamReply,
        adapter: &ResponseAdapter,
        account_id: String,
        spare_id: &str,
        now: i64,
    ) -> (r: HttpReply)
        ensures
            r@ == answer::adapted(reply@, adapter@, spare_id@, now as int),
            final(self)@ == remembering(old(self)@, reply@, adapter@, account_id@),
    {
        let (r, id): (HttpReply, Option<String>) = answer::adapt_response_at(
            reply,
            adapter,
            spare_id,
            now,
        );
        self.remember(id, account_id);
        r
    }

    /// The answer to a request for which the upstream gave `reply` to the account `account_id`,
    /// now.
    pub fn finish(
        &mut self,
        reply: UpstreamReply,
        adapter: &ResponseAdapter,
        account_id: String,
    ) -> (r: HttpReply)
        ensures
            exists|spare_id: Seq<char>, now: int|
                {
                    &&& outside::is_random_id(spare_id)
                    &&& 0 <= now <= outside::LAST_SECOND
                    &&& r@ == #[trigger] answer::adapted(reply@, adapter@, spare_id, now)
                },
            final(self)@ == remembering(old(self)@, reply@, adapter@, account_id@),
    {
        let (r, id): (HttpReply, Option<String>) = answer::adapt_response(reply, adapter);
        self.remember(id, account_id);
        r
    }
}

/// The answer to a request that the upstream did not answer.
pub fn failure_reply(error: &DispatchError) -> (r: HttpReply)
    ensures
        r@ == http::error_reply(error.status, error.message@),
{
    http::json_error(error.status, error.message.as_str())
}

/// The accounts that are picked have the identifier, or do not.
proof fn lemma_having(accounts: Seq<AccountView>, id: Seq<char>, with: bool)
    ensures
        forall|i: int|
            0 <= i < having(accounts, id, with).len() ==> ((#[trigger] having(
                accounts,
                id,
                with,
            )[i]).id == id) == with,
        with && (exists|i: int| 0 <= i < accounts.len() && (#[trigger] accounts[i]).id == id)
            ==> having(accounts, id, with).len() > 0,
    decreases accounts.len(),
{
    if accounts.len() > 0 {
        let shorter = accounts.drop_last();
        lemma_having(shorter, id, with);
        if with && exists|i: int| 0 <= i < accounts.len() && (#[trigger] accounts[i]).id == id {
            let i = choose|i: int| 0 <= i < accounts.len() && (#[trigger] accounts[i]).id == id;
            if i < shorter.len() {
                assert(shorter[i].id == id);
            }
        }
    }
}

/// Those that are picked and those that are not are all there are.
proof fn lemma_moved_first(accounts: Seq<AccountView>, id: Seq<char>)
    ensures
        moved_first(accounts, id).to_multiset() == accounts.to_multiset(),
    decreases accounts.len(),
{
    broadcast use vstd::seq_lib::group_to_multiset_ensures;

    let picked = having(accounts, id, true);
    let rest = having(accounts, id, false);
    vstd::seq_lib::lemma_multiset_commutative(picked, rest);
    if accounts.len() > 0 {
        let shorter = accounts.drop_last();
        let picked_before = having(shorter, id, true);
        let rest_before = having(shorter, id, false);
        lemma_moved_first(shorter, id);
        vstd::seq_lib::lemma_multiset_commutative(picked_before, rest_before);
        assert(accounts == shorter.push(accounts.last()));
        if accounts.last().id == id {
            assert(picked == picked_before.push(accounts.last()));
            assert(rest == rest_before);
        } else {
            assert(picked == picked_before);
            assert(rest == rest_before.push(accounts.last()));
        }
        assert((picked + rest).to_multiset() == accounts.to_multiset());
    } else {
        assert(picked + rest == accounts);
    }
}

/// Every account is tried in its turn: the order loses none and adds none.
pub proof fn order_loses_no_account(g: GatewayView, accounts: Seq<AccountView>, body: Seq<u8>)
    ensures
        ordered(g, accounts, body).to_multiset() == accounts.to_multiset(),
{
    match answer::followed_response(body) {
        Some(previous) => {
            if g.affinity.contains_key(previous) {
                lemma_moved_first(accounts, g.affinity[previous]);
            }
        },
        None => {
            if accounts.len() > 0 {
                let start = g.cursor as int % accounts.len() as int;
                vstd::seq_lib::lemma_multiset_commutative(
                    accounts.skip(start),
                    accounts.take(start),
                );
                vstd::seq_lib::lemma_multiset_commutative(
                    accounts.take(start),
                    accounts.skip(start),
                );
                assert(accounts.take(start) + accounts.skip(start) == accounts);
            }
        },
    }
}

/// A request that follows on a response goes first to the account that gave the response, where
/// that account is still there.
pub proof fn follow_on_goes_to_the_same_account(
    g: GatewayView,
    reply: AnswerView,
    adapter: AdapterView,
    account_id: Seq<char>,
    accounts: Seq<AccountView>,
    body: Seq<u8>,
)
    requires
        answer::remembered(reply, adapter) is Some,
        answer::followed_response(body) == answer::remembered(reply, adapter),
        exists|i: int| 0 <= i < accounts.len() && (#[trigger] accounts[i]).id == account_id,
    ensures
        ({
            let order = ordered(remembering(g, reply, adapter, account_id), accounts, body);
            order.len() > 0 && order[0].id == account_id
        }),
{
    lemma_having(accounts, account_id, true);
    let order = ordered(remembering(g, reply, adapter, account_id), accounts, body);
    assert(order == moved_first(accounts, account_id));
    assert(order[0] == having(accounts, account_id, true)[0]);
}

/// What is remembered of one response is not forgotten for another.
pub proof fn other_responses_stay_remembered(
    g: GatewayView,
    reply: AnswerView,
    adapter: AdapterView,
    account_id: Seq<char>,
    other: Seq<char>,
)
    requires
        answer::remembered(reply, adapter) != Some(other),
    ensures
        remembering(g, reply, adapter, account_id).affinity.contains_key(other)
            == g.affinity.contains_key(other),
        g.affinity.contains_key(other) ==> remembering(
            g,
            reply,
            adapter,
            account_id,
        ).affinity[other] == g.affinity[other],
{
}

/// Requests that follow on nothing take turns: where one starts at an account, the next starts at
/// the account after it, and after the last comes the first. The count of turns starts over at its
/// end, so that the turn before that is left out.
pub proof fn requests_take_turns(
    g: GatewayView,
    accounts: Seq<AccountView>,
    body: Seq<u8>,
    next_body: Seq<u8>,
)
    requires
        accounts.len() > 0,
        answer::followed_response(body) is None,
        answer::followed_response(next_body) is None,
        g.cursor < usize::MAX,
    ensures
        ({
            let start = g.cursor as int % accounts.len() as int;
            let next = if start + 1 == accounts.len() {
                0
            } else {
                start + 1
            };
            &&& ordered(g, accounts, body)[0] == accounts[start]
            &&& ordered(turned(g, accounts.len(), body), accounts, next_body)[0] == accounts[next]
        }),
{
    let n = accounts.len() as int;
    let start = g.cursor as int % n;
    vstd::arithmetic::div_mod::lemma_mod_bound(g.cursor as int, n);
    assert((g.cursor + 1) % n == if start + 1 == n {
        0
    } else {
        start + 1
    }) by {
        vstd::arithmetic::div_mod::lemma_add_mod_noop(g.cursor as int, 1, n);
        if n == 1 {
            assert((g.cursor + 1) % 1 == 0);
        } else {
            vstd::arithmetic::div_mod::lemma_small_mod(1, n as nat);
            if start + 1 == n {
                vstd::arithmetic::div_mod::lemma_mod_self_0(n);
            } else {
                vstd::arithmetic::div_mod::lemma_small_mod((start + 1) as nat, n as nat);
            }
        }
    }
}

/// The gateway after requests with the given bodies, one after another, were each handed to `count`
/// accounts.
pub open spec fn turned_by(g: GatewayView, count: nat, bodies: Seq<Seq<u8>>) -> GatewayView
    decreases bodies.len(),
{
    if bodies.len() == 0 {
        g
    } else {
        turned(turned_by(g, count, bodies.drop_last()), count, bodies.last())
    }
}

/// The account that each of the requests with the given bodies, one after another, starts at.
pub open spec fn starts(
    g: GatewayView,
    accounts: Seq<AccountView>,
    bodies: Seq<Seq<u8>>,
) -> Seq<AccountView> {
    Seq::new(
        bodies.len(),
        |k: int|
            ordered(turned_by(g, accounts.len(), bodies.take(k)), accounts, bodies[k])[0],
    )
}

/// Each request that follows on nothing is one more turn.
proof fn lemma_turned_by(g: GatewayView, count: nat, bodies: Seq<Seq<u8>>)
    requires
        count > 0,
        g.cursor + bodies.len() <= usize::MAX,
        forall|k: int|
            0 <= k < bodies.len() ==> answer::followed_response(#[trigger] bodies[k]) is None,
    ensures
        turned_by(g, count, bodies) == (GatewayView {
            cursor: (g.cursor + bodies.len()) as usize,
            ..g
        }),
    decreases bodies.len(),
{
    if bodies.len() > 0 {
        let before = bodies.drop_last();
        assert forall|k: int| 0 <= k < before.len() implies answer::followed_response(
            #[trigger] before[k],
        ) is None by {
            assert(before[k] == bodies[k]);
        }
        lemma_turned_by(g, count, before);
        assert(answer::followed_response(bodies[bodies.len() - 1]) is None);
    }
}

/// As many requests in a row as there are accounts, none of which follows on a response, start at
/// each account once, in their order from the one whose turn it is. The count of turns starts over
/// at its end, so that rows across that are left out.
pub proof fn every_account_has_its_turn(
    g: GatewayView,
    accounts: Seq<AccountView>,
    bodies: Seq<Seq<u8>>,
)
    requires
        bodies.len() == accounts.len(),
        g.cursor + accounts.len() <= usize::MAX + 1,
        forall|k: int|
            0 <= k < bodies.len() ==> answer::followed_response(#[trigger] bodies[k]) is None,
    ensures
        accounts.len() > 0 ==> starts(g, accounts, bodies) == rotated(
            accounts,
            g.cursor as int % accounts.len() as int,
        ),
        starts(g, accounts, bodies).to_multiset() == accounts.to_multiset(),
{
    let n = accounts.len() as int;
    let all = starts(g, accounts, bodies);
    if n == 0 {
        assert(all == accounts);
    } else {
        let c = g.cursor as int;
        let start = c % n;
        vstd::arithmetic::div_mod::lemma_mod_bound(c, n);
        let wanted = rotated(accounts, start);
        assert forall|k: int| 0 <= k < n implies all[k] == wanted[k] by {
            let before = bodies.take(k);
            assert forall|i: int| 0 <= i < before.len() implies answer::followed_response(
                #[trigger] before[i],
            ) is None by {
                assert(before[i] == bodies[i]);
            }
            lemma_turned_by(g, accounts.len(), before);
            assert(answer::followed_response(bodies[k]) is None);
            let at = (c + k) % n;
            vstd::arithmetic::div_mod::lemma_mod_bound(c + k, n);
            vstd::arithmetic::div_mod::lemma_add_mod_noop(c, k, n);
            vstd::arithmetic::div_mod::lemma_small_mod(k as nat, n as nat);
            if start + k < n {
                vstd::arithmetic::div_mod::lemma_small_mod((start + k) as nat, n as nat);
            } else {
                vstd::arithmetic::div_mod::lemma_mod_add_multiples_vanish(start + k - n, n);
                vstd::arithmetic::div_mod::lemma_small_mod((start + k - n) as nat, n as nat);
            }
            assert(all[k] == rotated(accounts, at)[0]);
            assert(rotated(accounts, at)[0] == accounts[at]);
        }
        assert(all == wanted);
        assert(answer::followed_response(bodies[0]) is None);
        order_loses_no_account(g, accounts, bodies[0]);
    }
}

/// Whatever happens, a request is over after at most six events for each account, and where it is
/// answered, it is for one of the accounts.
pub proof fn answer_is_for_one_of_the_accounts(
    g: GatewayView,
    request: RequestView,
    accounts: Seq<AccountView>,
    now: int,
    events: Seq<Happening>,
)
    requires
        dispatch::can_happen(dispatch::trying(opening(g, request, accounts), now), events),
    ensures
        events.len() <= 6 * accounts.len(),
        dispatch::ran(dispatch::trying(opening(g, request, accounts), now), events).1 matches ActionView::Finish {
            account_id,
            ..
        } ==> exists|i: int| 0 <= i < accounts.len() && (#[trigger] accounts[i]).id == account_id,
{
    broadcast use vstd::seq_lib::group_to_multiset_ensures;

    let d = opening(g, request, accounts);
    dispatch::run_keeps_to_its_business(d, now, events);
    order_loses_no_account(g, accounts, request.body);
    assert(d.accounts.len() == d.accounts.to_multiset().len());
    assert(accounts.len() == accounts.to_multiset().len());
    let (after, action) = dispatch::ran(dispatch::trying(d, now), events);
    if let ActionView::Finish { account_id, .. } = action {
        let asked = d.accounts[after.at];
        assert(after.accounts[after.at].id == asked.id);
        assert(d.accounts.contains(asked));
        assert(accounts.to_multiset().count(asked) > 0);
        assert(accounts.contains(asked));
    }
}

} // verus!
