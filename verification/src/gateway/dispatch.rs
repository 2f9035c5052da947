//! Dispatch: a request on its way through the accounts.
use crate::account;
use crate::account::{Account, AccountView, Freshness};
use crate::gateway::answer;
use crate::gateway::answer::{AnswerView, DispatchError, ErrorView, UpstreamReply};
use crate::gateway::http;
use crate::gateway::request;
use crate::gateway::request::{ParsedGatewayRequest, RequestView, UpstreamRequest, UpstreamView};
use crate::outside;
use crate::text;
use vstd::prelude::*;

verus! {

/// What accounts are.
pub open spec fn account_views(accounts: Seq<Account>) -> Seq<AccountView> {
    Seq::new(accounts.len(), |i: int| accounts[i]@)
}

/// Where a dispatch stands with the account that it tries.
#[derive(Debug)]
pub enum Phase {
    /// The access token is being refreshed with `token`; `forced`, where the upstream refused the
    /// one there was.
    Refreshing { token: String, forced: bool },
    /// The refreshed account is being saved.
    Saving { forced: bool },
    /// The upstream is being asked; `retried`, where it is the second time.
    Sending { retried: bool },
    /// There is nothing more to do.
    Over,
}

/// Where a dispatch stands.
pub enum PhaseView {
    Refreshing { token: Seq<char>, forced: bool },
    Saving { forced: bool },
    Sending { retried: bool },
    Over,
}

impl View for Phase {
    type V = PhaseView;

    open spec fn view(&self) -> PhaseView {
        match self {
            Phase::Refreshing { token, forced } => PhaseView::Refreshing {
                token: token@,
                forced: *forced,
            },
            Phase::Saving { forced } => PhaseView::Saving { forced: *forced },
            Phase::Sending { retried } => PhaseView::Sending { retried: *retried },
            Phase::Over => PhaseView::Over,
        }
    }
}

/// What a dispatch wants done.
#[derive(Debug)]
pub enum Action {
    /// The token endpoint is asked with this refresh token.
    Refresh(String),
    /// The account is saved.
    Save(Account),
    /// The upstream is asked.
    Send(UpstreamRequest),
    /// The request is answered with what the upstream said for the account `account_id`.
    Finish { reply: UpstreamReply, account_id: String },
    /// The request fails.
    Fail(DispatchError),
}

/// What is wanted done.
pub enum ActionView {
    Refresh(Seq<char>),
    Save(AccountView),
    Send(UpstreamView),
    Finish { reply: AnswerView, account_id: Seq<char> },
    Fail(ErrorView),
}

impl View for Action {
    type V = ActionView;

    open spec fn view(&self) -> ActionView {
        match self {
            Action::Refresh(token) => ActionView::Refresh(token@),
            Action::Save(account) => ActionView::Save(account@),
            Action::Send(request) => ActionView::Send(request@),
            Action::Finish { reply, account_id } => ActionView::Finish {
                reply: reply@,
                account_id: account_id@,
            },
            Action::Fail(error) => ActionView::Fail(error@),
        }
    }
}

/// What came of an action.
#[derive(Debug)]
pub enum Event {
    /// The token endpoint answered.
    Refreshed { status: u16, body: String },
    /// The token endpoint could not be asked.
    RefreshNotSent,
    /// The answer of the token endpoint could not be read.
    RefreshNotRead,
    /// The account was saved.
    Saved,
    /// The account could not be saved, for this reason.
    NotSaved(String),
    /// The upstream answered; the body could be read, or not, for this reason.
    Answered { status: u16, content_type: Option<Vec<u8>>, body: Result<Vec<u8>, String> },
    /// The upstream could not be asked.
    NotSent,
}

/// What came of an action.
pub enum EventView {
    Refreshed { status: u16, body: Seq<char> },
    RefreshNotSent,
    RefreshNotRead,
    Saved,
    NotSaved(Seq<char>),
    Answered { status: u16, content_type: Option<Seq<u8>>, body: Result<Seq<u8>, Seq<char>> },
    NotSent,
}

/// What a body that was read, or not, holds.
pub open spec fn body_view(body: Result<Vec<u8>, String>) -> Result<Seq<u8>, Seq<char>> {
    match body {
        Ok(bytes) => Ok(bytes@),
        Err(error) => Err(error@),
    }
}

impl View for Event {
    type V = EventView;

    open spec fn view(&self) -> EventView {
        match self {
            Event::Refreshed { status, body } => EventView::Refreshed {
                status: *status,
                body: body@,
            },
            Event::RefreshNotSent => EventView::RefreshNotSent,
            Event::RefreshNotRead => EventView::RefreshNotRead,
            Event::Saved => EventView::Saved,
            Event::NotSaved(error) => EventView::NotSaved(error@),
            Event::Answered { status, content_type, body } => EventView::Answered {
                status: *status,
                content_type: http::opt_bytes(*content_type),
                body: body_view(*body),
            },
            Event::NotSent => EventView::NotSent,
        }
    }
}

/// A request on its way through the accounts.
#[derive(Debug)]
pub struct Dispatch {
    request: ParsedGatewayRequest,
    base: String,
    accounts: Vec<Account>,
    at: usize,
    phase: Phase,
    last_error: DispatchError,
}

/// What a dispatch is.
pub struct DispatchView {
    pub request: RequestView,
    pub base: Seq<char>,
    pub accounts: Seq<AccountView>,
    pub at: int,
    pub phase: PhaseView,
    pub last_error: ErrorView,
}

impl View for Dispatch {
    type V = DispatchView;

    closed spec fn view(&self) -> DispatchView {
        DispatchView {
            request: self.request@,
            base: self.base@,
            accounts: account_views(self.accounts@),
            at: self.at as int,
            phase: self.phase@,
            last_error: self.last_error@,
        }
    }
}

impl DispatchView {
    /// Whether there is an account that is tried, until the dispatch is over.
    pub open spec fn wf(self) -> bool {
        &&& 0 <= self.at <= self.accounts.len()
        &&& self.phase is Over || self.at < self.accounts.len()
    }

    /// Whether `event` can come of what the dispatch wants done.
    pub open spec fn expects(self, event: EventView) -> bool {
        match event {
            EventView::Refreshed { status, .. } => self.phase is Refreshing && 100 <= status <= 999,
            EventView::RefreshNotSent => self.phase is Refreshing,
            EventView::RefreshNotRead => self.phase is Refreshing,
            EventView::Saved => self.phase is Saving,
            EventView::NotSaved(_) => self.phase is Saving,
            EventView::Answered { status, .. } => self.phase is Sending && 100 <= status <= 999,
            EventView::NotSent => self.phase is Sending,
        }
    }

    /// The account that is tried.
    pub open spec fn account(self) -> AccountView {
        self.accounts[self.at]
    }

    /// This dispatch after the account that it tried failed with `error`.
    pub open spec fn passed_over(self, error: ErrorView) -> DispatchView {
        DispatchView { at: self.at + 1, last_error: error, ..self }
    }

    /// This dispatch in another phase.
    pub open spec fn in_phase(self, phase: PhaseView) -> DispatchView {
        DispatchView { phase, ..self }
    }
}

/// The error for an account that could not be refreshed.
pub open spec fn refresh_failure(email: Seq<char>, error: Seq<char>) -> ErrorView {
    ErrorView { status: 401, message: "account "@ + email + " refresh failed: "@ + error }
}

/// The error for a request that the upstream could not be asked.
pub open spec fn send_failure(error: Seq<char>) -> ErrorView {
    ErrorView { status: 502, message: error }
}

/// Why a request that is not under the gateway's version is not sent.
pub open spec fn no_path_text() -> Seq<char> {
    "only /v1 paths are supported"@
}

/// How an account is tried at the second `now`: the access token is refreshed where it ends soon,
/// and then the upstream is asked. An account for which neither can be done is passed over. The
/// last error is the answer where no account is left.
pub open spec fn trying(d: DispatchView, now: int) -> (DispatchView, ActionView)
    decreases d.accounts.len() - d.at,
{
    if d.at >= d.accounts.len() {
        (d.in_phase(PhaseView::Over), ActionView::Fail(d.last_error))
    } else if account::jwt_expired(
        d.account().access_token,
        now + account::TOKEN_REFRESH_SKEW_SECONDS,
    ) {
        match d.account().refresh_token {
            Some(token) => (
                d.in_phase(PhaseView::Refreshing { token, forced: false }),
                ActionView::Refresh(token),
            ),
            None => trying(
                d.passed_over(
                    refresh_failure(d.account().email, account::expired_text(d.account().email)),
                ),
                now,
            ),
        }
    } else {
        match request::upstream_request(d.request, d.base, d.account()) {
            Some(upstream) => (
                d.in_phase(PhaseView::Sending { retried: false }),
                ActionView::Send(upstream),
            ),
            None => trying(d.passed_over(send_failure(no_path_text())), now),
        }
    }
}

/// What follows where the account that was tried failed with `error`.
pub open spec fn after_failure(d: DispatchView, error: ErrorView, now: int) -> (
    DispatchView,
    ActionView,
) {
    trying(d.passed_over(error), now)
}

/// What follows where the account was saved: the upstream is asked.
pub open spec fn after_save(d: DispatchView, forced: bool, now: int) -> (DispatchView, ActionView) {
    match request::upstream_request(d.request, d.base, d.account()) {
        Some(upstream) => (
            d.in_phase(PhaseView::Sending { retried: forced }),
            ActionView::Send(upstream),
        ),
        None => after_failure(d, send_failure(no_path_text()), now),
    }
}

/// What follows on an answer of the token endpoint: the refreshed account is saved.
pub open spec fn after_refresh(
    d: DispatchView,
    token: Seq<char>,
    forced: bool,
    status: u16,
    body: Seq<char>,
    now: int,
    now_millis: int,
) -> (DispatchView, ActionView) {
    match account::refresh_outcome(status, body, token, d.account().id_token) {
        Ok(tokens) => {
            let renewed = d.account().with_tokens(tokens, token, now_millis);
            (
                DispatchView {
                    accounts: d.accounts.update(d.at, renewed),
                    phase: PhaseView::Saving { forced },
                    ..d
                },
                ActionView::Save(renewed),
            )
        },
        Err(error) => after_failure(d, refresh_failure(d.account().email, error.text()), now),
    }
}

/// The text of an error of the upstream: none, where it could not be read.
pub open spec fn error_body(body: Result<Seq<u8>, Seq<char>>) -> Seq<char> {
    match body {
        Ok(bytes) => outside::text_in(bytes),
        Err(_) => Seq::empty(),
    }
}

/// What follows on an answer of the upstream: one that succeeds is the answer to the request; one
/// that refuses the access token has it refreshed once; one that another account may not meet
/// passes this one over; any other ends the dispatch.
pub open spec fn after_answer(
    d: DispatchView,
    retried: bool,
    status: u16,
    content_type: Option<Seq<u8>>,
    body: Result<Seq<u8>, Seq<char>>,
    now: int,
) -> (DispatchView, ActionView) {
    if http::is_success(status) {
        match body {
            Ok(body) => (
                d.in_phase(PhaseView::Over),
                ActionView::Finish {
                    reply: AnswerView { status, content_type, body },
                    account_id: d.account().id,
                },
            ),
            Err(error) => (
                d.in_phase(PhaseView::Over),
                ActionView::Fail(
                    ErrorView { status: 502, message: "read upstream failed: "@ + error },
                ),
            ),
        }
    } else if status == 401 && !retried {
        match d.account().refresh_token {
            Some(token) => (
                d.in_phase(PhaseView::Refreshing { token, forced: true }),
                ActionView::Refresh(token),
            ),
            None => after_failure(
                d,
                refresh_failure(d.account().email, "missing refresh token"@),
                now,
            ),
        }
    } else {
        let error = ErrorView {
            status,
            message: answer::upstream_error_text(status, error_body(body)),
        };
        if retried || http::is_retryable(status) {
            after_failure(d, error, now)
        } else {
            (d.in_phase(PhaseView::Over), ActionView::Fail(error))
        }
    }
}

/// What follows on `event`, at the second `now` and the millisecond `now_millis`.
pub open spec fn stepped(d: DispatchView, event: EventView, now: int, now_millis: int) -> (
    DispatchView,
    ActionView,
) {
    match (event, d.phase) {
        (
            EventView::Refreshed { status, body },
            PhaseView::Refreshing { token, forced },
        ) => after_refresh(d, token, forced, status, body, now, now_millis),
        (EventView::RefreshNotSent, _) => after_failure(
            d,
            refresh_failure(d.account().email, "send token refresh request"@),
            now,
        ),
        (EventView::RefreshNotRead, _) => after_failure(
            d,
            refresh_failure(d.account().email, "read token refresh response"@),
            now,
        ),
        (EventView::Saved, PhaseView::Saving { forced }) => after_save(d, forced, now),
        (EventView::NotSaved(error), _) => after_failure(
            d,
            refresh_failure(d.account().email, error),
            now,
        ),
        (
            EventView::Answered { status, content_type, body },
            PhaseView::Sending { retried },
        ) => after_answer(d, retried, status, content_type, body, now),
        _ => after_failure(d, send_failure("send upstream request"@), now),
    }
}

/// The error where no account has been tried yet.
pub open spec fn first_error(count: nat) -> ErrorView {
    ErrorView {
        status: 503,
        message: if count == 0 {
            "no accounts imported"@
        } else {
            "no usable account"@
        },
    }
}

/// A request before any of the accounts has been tried.
pub open spec fn opened(
    request: RequestView,
    base: Seq<char>,
    accounts: Seq<AccountView>,
) -> DispatchView {
    DispatchView {
        request,
        base,
        accounts,
        at: 0,
        phase: PhaseView::Over,
        last_error: first_error(accounts.len()),
    }
}

/// The error for an account that could not be refreshed.
fn refresh_error(email: &str, error: &str) -> (r: DispatchError)
    ensures
        r@ == refresh_failure(email@, error@),
{
    let mut message: String = text::joined("account ", email);
    message.append(" refresh failed: ");
    message.append(error);
    DispatchError::new(401, message)
}

impl Dispatch {
    /// Passes the account that was tried over.
    fn pass_over(&mut self, error: DispatchError)
        requires
            old(self)@.at < old(self)@.accounts.len(),
        ensures
            final(self)@ == old(self)@.passed_over(error@),
    {
        assert(self.accounts@.len() <= usize::MAX) by {
            assert(self.accounts.len() == self.accounts@.len());
        }
        self.last_error = error;
        self.at = self.at + 1;
    }

    /// The request to the upstream for the account that is tried.
    fn upstream(&self) -> (r: Option<UpstreamRequest>)
        requires
            0 <= self@.at < self@.accounts.len(),
        ensures
            match r {
                Some(upstream) => request::upstream_request(
                    self@.request,
                    self@.base,
                    self@.account(),
                ) == Some(upstream@),
                None => request::upstream_request(
                    self@.request,
                    self@.base,
                    self@.account(),
                ) is None,
            },
    {
        request::send_upstream(&self.request, self.base.as_str(), &self.accounts[self.at])
    }

    /// Tries the account that is next, at the second `now`.
    fn try_accounts(&mut self, now: i64) -> (r: Action)
        requires
            0 <= old(self)@.at <= old(self)@.accounts.len(),
        ensures
            (final(self)@, r@) == trying(old(self)@, now as int),
            final(self)@.wf(),
    {
        while self.at < self.accounts.len()
            invariant
                0 <= self@.at <= self@.accounts.len(),
                    trying(self@, now as int) == trying(old(self)@, now as int),
            decreases self.accounts@.len() - self.at,
        {
            match account::ensure_fresh_at(&self.accounts[self.at], now) {
                Freshness::Expired => {
                    let account: &Account = &self.accounts[self.at];
                    let reason: String = account::expired_message(account);
                    let error: DispatchError = refresh_error(
                        account.email.as_str(),
                        reason.as_str(),
                    );
                    self.pass_over(error);
                },
                Freshness::Refresh(token) => {
                    self.phase = Phase::Refreshing { token: token.clone(), forced: false };
                    return Action::Refresh(token);
                },
                Freshness::Fresh => match self.upstream() {
                    Some(upstream) => {
                        self.phase = Phase::Sending { retried: false };
                        return Action::Send(upstream);
                    },
                    None => {
                        self.pass_over(
                            DispatchError::bad_gateway("only /v1 paths are supported".to_owned()),
                        );
                    },
                },
            }
        }
        self.phase = Phase::Over;
        Action::Fail(
            DispatchError {
                status: self.last_error.status,
                message: self.last_error.message.clone(),
            },
        )
    }

    /// Hands a request for the upstream at `base` to the accounts, in their order, at the second
    /// `now`.
    pub fn open_at(
        request: ParsedGatewayRequest,
        base: String,
        accounts: Vec<Account>,
        now: i64,
    ) -> (r: (Dispatch, Action))
        ensures
            (r.0@, r.1@) == trying(
                opened(request@, base@, account_views(accounts@)),
                now as int,
            ),
            r.0@.wf(),
    {
        let message: String = if accounts.len() == 0 {
            "no accounts imported".to_owned()
        } else {
            "no usable account".to_owned()
        };
        let mut dispatch: Dispatch = Dispatch {
            request,
            base,
            accounts,
            at: 0,
            phase: Phase::Over,
            last_error: DispatchError::unavailable(message),
        };
        let action: Action = dispatch.try_accounts(now);
        (dispatch, action)
    }

    /// What follows where the account that was tried failed with `error`, at the second `now`.
    fn fail_over(&mut self, error: DispatchError, now: i64) -> (r: Action)
        requires
            0 <= old(self)@.at < old(self)@.accounts.len(),
        ensures
            (final(self)@, r@) == after_failure(old(self)@, error@, now as int),
            final(self)@.wf(),
    {
        self.pass_over(error);
        self.try_accounts(now)
    }

    /// What follows where the account that was tried could not be refreshed, at the second `now`.
    fn fail_refresh(&mut self, error: &str, now: i64) -> (r: Action)
        requires
            0 <= old(self)@.at < old(self)@.accounts.len(),
        ensures
            (final(self)@, r@) == after_failure(
                old(self)@,
                refresh_failure(old(self)@.account().email, error@),
                now as int,
            ),
            final(self)@.wf(),
    {
        let failure: DispatchError = refresh_error(self.accounts[self.at].email.as_str(), error);
        self.fail_over(failure, now)
    }

    /// What follows on an answer of the token endpoint.
    fn take_refresh(
        &mut self,
        token: String,
        forced: bool,
        status: u16,
        body: &str,
        now: i64,
        now_millis: i64,
    ) -> (r: Action)
        requires
            0 <= old(self)@.at < old(self)@.accounts.len(),
            100 <= status <= 999,
        ensures
            (final(self)@, r@) == after_refresh(
                old(self)@,
                token@,
                forced,
                status,
                body@,
                now as int,
                now_millis as int,
            ),
            final(self)@.wf(),
    {
        let id_token: Option<&str> = match &self.accounts[self.at].id_token {
            Some(token) => Some(token.as_str()),
            None => None,
        };
        match account::refresh_access_token(status, body, token.as_str(), id_token) {
            Ok(tokens) => {
                let mut renewed: Account = self.accounts[self.at].clone();
                renewed.take_tokens(tokens, token, now_millis);
                let saved: Account = renewed.clone();
                self.accounts.set(self.at, renewed);
                self.phase = Phase::Saving { forced };
                assert(account_views(self.accounts@) == account_views(old(self).accounts@).update(
                    self.at as int,
                    renewed@,
                ));
                Action::Save(saved)
            },
            Err(error) => {
                let reason: String = error.message();
                self.fail_refresh(reason.as_str(), now)
            },
        }
    }

    /// What follows where the account was saved.
    fn take_save(&mut self, forced: bool, now: i64) -> (r: Action)
        requires
            0 <= old(self)@.at < old(self)@.accounts.len(),
        ensures
            (final(self)@, r@) == after_save(old(self)@, forced, now as int),
            final(self)@.wf(),
    {
        match self.upstream() {
            Some(upstream) => {
                self.phase = Phase::Sending { retried: forced };
                Action::Send(upstream)
            },
            None => self.fail_over(
                DispatchError::bad_gateway("only /v1 paths are supported".to_owned()),
                now,
            ),
        }
    }

    /// What follows on an answer of the upstream.
    fn take_answer(
        &mut self,
        retried: bool,
        status: u16,
        content_type: Option<Vec<u8>>,
        body: Result<Vec<u8>, String>,
        now: i64,
    ) -> (r: Action)
        requires
            0 <= old(self)@.at < old(self)@.accounts.len(),
            100 <= status <= 999,
        ensures
            (final(self)@, r@) == after_answer(
                old(self)@,
                retried,
                status,
                http::opt_bytes(content_type),
                body_view(body),
                now as int,
            ),
            final(self)@.wf(),
    {
        if http::succeeded(status) {
            self.phase = Phase::Over;
            return match body {
                Ok(body) => Action::Finish {
                    reply: UpstreamReply { status, content_type, body },
                    account_id: self.accounts[self.at].id.clone(),
                },
                Err(error) => Action::Fail(
                    DispatchError::bad_gateway(
                        text::joined("read upstream failed: ", error.as_str()),
                    ),
                ),
            };
        }
        if status == 401 && !retried {
            let token: Option<String> = self.accounts[self.at].refresh_token.clone();
            return match token {
                Some(token) => {
                    self.phase = Phase::Refreshing { token: token.clone(), forced: true };
                    Action::Refresh(token)
                },
                None => self.fail_refresh("missing refresh token", now),
            };
        }
        let said: String = match body {
            Ok(bytes) => outside::lossy_text(bytes.as_slice()),
            Err(_) => String::new(),
        };
        let error: DispatchError = answer::upstream_error(status, said.as_str());
        if retried || http::should_try_next_account(status) {
            self.fail_over(error, now)
        } else {
            self.phase = Phase::Over;
            Action::Fail(error)
        }
    }

    /// What follows on `event`, at the second `now` and the millisecond `now_millis`.
    pub fn step_at(&mut self, event: Event, now: i64, now_millis: i64) -> (r: Action)
        requires
            old(self)@.wf(),
            old(self)@.expects(event@),
        ensures
            (final(self)@, r@) == stepped(old(self)@, event@, now as int, now_millis as int),
            final(self)@.wf(),
    {
        match (event, &self.phase) {
            (Event::Refreshed { status, body }, Phase::Refreshing { token, forced }) => {
                let token: String = token.clone();
                let forced: bool = *forced;
                self.take_refresh(token, forced, status, body.as_str(), now, now_millis)
            },
            (Event::RefreshNotSent, _) => self.fail_refresh("send token refresh request", now),
            (Event::RefreshNotRead, _) => self.fail_refresh("read token refresh response", now),
            (Event::Saved, Phase::Saving { forced }) => {
                let forced: bool = *forced;
                self.take_save(forced, now)
            },
            (Event::NotSaved(error), _) => self.fail_refresh(error.as_str(), now),
            (
                Event::Answered { status, content_type, body },
                Phase::Sending { retried },
            ) => {
                let retried: bool = *retried;
                self.take_answer(retried, status, content_type, body, now)
            },
            _ => self.fail_over(
                DispatchError::bad_gateway("send upstream request".to_owned()),
                now,
            ),
        }
    }

    /// What follows on `event` now.
    pub fn step(&mut self, event: Event) -> (r: Action)
        requires
            old(self)@.wf(),
            old(self)@.expects(event@),
        ensures
            exists|now: int, now_millis: int|
                {
                    &&& 0 <= now <= outside::LAST_SECOND
                    &&& 0 <= now_millis <= outside::LAST_SECOND * 1000 + 999
                    &&& (final(self)@, r@) == #[trigger] stepped(
                        old(self)@,
                        event@,
                        now,
                        now_millis,
                    )
                },
            final(self)@.wf(),
    {
        let now: i64 = outside::now_seconds();
        let now_millis: i64 = outside::now_millis();
        self.step_at(event, now, now_millis)
    }
}

/// How many more events a dispatch can take, at most.
pub open spec fn steps_left(d: DispatchView) -> int {
    let later = 6 * (d.accounts.len() - d.at - 1);
    match d.phase {
        PhaseView::Refreshing { forced, .. } => later + if forced {
            3int
        } else {
            6
        },
        PhaseView::Saving { forced } => later + if forced {
            2int
        } else {
            5
        },
        PhaseView::Sending { retried } => later + if retried {
            1int
        } else {
            4
        },
        PhaseView::Over => 0,
    }
}

/// Whether `d` is for the same request and the same accounts as `before`, whatever their tokens.
pub open spec fn same_business(d: DispatchView, before: DispatchView) -> bool {
    &&& d.request == before.request
    &&& d.base == before.base
    &&& d.accounts.len() == before.accounts.len()
    &&& forall|i: int|
        0 <= i < d.accounts.len() ==> {
            &&& (#[trigger] d.accounts[i]).id == before.accounts[i].id
            &&& d.accounts[i].name == before.accounts[i].name
            &&& d.accounts[i].email == before.accounts[i].email
            &&& d.accounts[i].account_id == before.accounts[i].account_id
        }
}

/// Whether an action is about the account that is tried, for the request there is.
pub open spec fn concerns_account(d: DispatchView, action: ActionView) -> bool {
    match action {
        ActionView::Refresh(token) => d.account().refresh_token == Some(token),
        ActionView::Save(account) => account == d.account(),
        ActionView::Send(upstream) => request::upstream_request(d.request, d.base, d.account())
            == Some(upstream),
        ActionView::Finish { account_id, .. } => account_id == d.account().id,
        ActionView::Fail(_) => true,
    }
}

/// What trying accounts comes to.
proof fn lemma_trying(d: DispatchView, now: int)
    requires
        0 <= d.at <= d.accounts.len(),
    ensures
        ({
            let (after, action) = trying(d, now);
            &&& after.wf()
            &&& d.at <= after.at
            &&& same_business(after, d)
            &&& after.accounts == d.accounts
            &&& concerns_account(after, action)
            &&& steps_left(after) <= 6 * (d.accounts.len() - d.at)
            &&& !(action is Finish) && !(action is Save)
            &&& action is Fail ==> after.phase is Over && after.at == d.accounts.len()
            &&& action is Send ==> !account::jwt_expired(
                after.account().access_token,
                now + account::TOKEN_REFRESH_SKEW_SECONDS,
            )
        }),
    decreases d.accounts.len() - d.at,
{
    if d.at < d.accounts.len() {
        if account::jwt_expired(
            d.account().access_token,
            now + account::TOKEN_REFRESH_SKEW_SECONDS,
        ) {
            if d.account().refresh_token is None {
                lemma_trying(
                    d.passed_over(
                        refresh_failure(
                            d.account().email,
                            account::expired_text(d.account().email),
                        ),
                    ),
                    now,
                );
            }
        } else if request::upstream_request(d.request, d.base, d.account()) is None {
            lemma_trying(d.passed_over(send_failure(no_path_text())), now);
        }
    }
}

/// A dispatch comes to an end: every event leaves fewer to come, and at first there are at most six
/// for each account.
pub proof fn dispatch_comes_to_an_end(d: DispatchView, event: EventView, now: int, now_millis: int)
    requires
        d.wf(),
        d.expects(event),
    ensures
        stepped(d, event, now, now_millis).0.wf(),
        0 <= steps_left(stepped(d, event, now, now_millis).0) < steps_left(d),
        steps_left(d) <= 6 * d.accounts.len(),
{
    lemma_step(d, event, now, now_millis);
}

/// What a step comes to.
proof fn lemma_step(d: DispatchView, event: EventView, now: int, now_millis: int)
    requires
        d.wf(),
        d.expects(event),
    ensures
        ({
            let (after, action) = stepped(d, event, now, now_millis);
            &&& after.wf()
            &&& d.at <= after.at
            &&& same_business(after, d)
            &&& concerns_account(after, action)
            &&& 0 <= steps_left(after) < steps_left(d)
            &&& action is Finish ==> after.at == d.at
            &&& action is Fail ==> after.phase is Over
            &&& after.at > d.at && action is Fail ==> after.at == d.accounts.len()
            &&& after.at == d.at && action is Fail ==> (event matches EventView::Answered {
                status,
                ..
            } && !http::is_retryable(status))
        }),
{
    assert forall|error: ErrorView| #[trigger] d.passed_over(error).at <= d.accounts.len() implies {
        let (after, action) = after_failure(d, error, now);
        &&& after.wf()
        &&& d.at < after.at
        &&& same_business(after, d)
        &&& concerns_account(after, action)
        &&& 0 <= steps_left(after) <= 6 * (d.accounts.len() - d.at - 1)
        &&& !(action is Finish)
        &&& action is Fail ==> after.phase is Over && after.at == d.accounts.len()
    } by {
        lemma_trying(d.passed_over(error), now);
    }
    assert(d.passed_over(send_failure("send upstream request"@)).at <= d.accounts.len());
    match (event, d.phase) {
        (EventView::Refreshed { status, body }, PhaseView::Refreshing { token, forced }) => {
            match account::refresh_outcome(status, body, token, d.account().id_token) {
                Ok(_) => {},
                Err(error) => {
                    assert(d.passed_over(refresh_failure(d.account().email, error.text())).at
                        <= d.accounts.len());
                },
            }
        },
        (EventView::RefreshNotSent, _) => {
            assert(d.passed_over(
                refresh_failure(d.account().email, "send token refresh request"@),
            ).at <= d.accounts.len());
        },
        (EventView::RefreshNotRead, _) => {
            assert(d.passed_over(
                refresh_failure(d.account().email, "read token refresh response"@),
            ).at <= d.accounts.len());
        },
        (EventView::Saved, PhaseView::Saving { forced }) => {
            assert(d.passed_over(send_failure(no_path_text())).at <= d.accounts.len());
        },
        (EventView::NotSaved(error), _) => {
            assert(d.passed_over(refresh_failure(d.account().email, error)).at
                <= d.accounts.len());
        },
        (EventView::Answered { status, content_type, body }, PhaseView::Sending { retried }) => {
            assert(d.passed_over(
                refresh_failure(d.account().email, "missing refresh token"@),
            ).at <= d.accounts.len());
            assert(d.passed_over(
                ErrorView {
                    status,
                    message: answer::upstream_error_text(status, error_body(body)),
                },
            ).at <= d.accounts.len());
        },
        _ => {},
    }
}

/// A dispatch keeps to its business: the request, the upstream and the accounts stay, in their
/// order, but for the tokens of an account that is refreshed; and what it wants done concerns the
/// account that is tried.
pub proof fn dispatch_keeps_to_its_business(
    d: DispatchView,
    event: EventView,
    now: int,
    now_millis: int,
)
    requires
        d.wf(),
        d.expects(event),
    ensures
        same_business(stepped(d, event, now, now_millis).0, d),
        concerns_account(
            stepped(d, event, now, now_millis).0,
            stepped(d, event, now, now_millis).1,
        ),
        d.at <= stepped(d, event, now, now_millis).0.at,
{
    lemma_step(d, event, now, now_millis);
}

/// A request is answered with a success of the upstream, and only so, and for the account that was
/// asked.
pub proof fn success_is_the_answer(d: DispatchView, event: EventView, now: int, now_millis: int)
    requires
        d.wf(),
        d.expects(event),
    ensures
        match stepped(d, event, now, now_millis).1 {
            ActionView::Finish { reply, account_id } => {
                &&& http::is_success(reply.status)
                &&& account_id == d.account().id
                &&& event == EventView::Answered {
                    status: reply.status,
                    content_type: reply.content_type,
                    body: Ok(reply.body),
                }
            },
            _ => !(event matches EventView::Answered { status, body: Ok(_), .. } && http::is_success(
                status,
            )),
        },
{
    lemma_step(d, event, now, now_millis);
    assert forall|error: ErrorView| #[trigger] d.passed_over(error).at <= d.accounts.len() implies !(
    after_failure(d, error, now).1 is Finish) by {
        lemma_trying(d.passed_over(error), now);
    }
    assert(d.passed_over(send_failure("send upstream request"@)).at <= d.accounts.len());
}

/// A first refusal that is no reason to try another account is the answer at once.
pub proof fn final_refusal_is_the_answer(d: DispatchView, event: EventView, now: int, now_millis: int)
    requires
        d.wf(),
        d.phase == (PhaseView::Sending { retried: false }),
        event matches EventView::Answered { status, .. } && 100 <= status <= 999
            && !http::is_success(status) && !http::is_retryable(status),
    ensures
        ({
            let status = event->Answered_status;
            let message = answer::upstream_error_text(status, error_body(event->Answered_body));
            stepped(d, event, now, now_millis) == (
                d.in_phase(PhaseView::Over),
                ActionView::Fail(ErrorView { status, message }),
            )
        }),
{
}

/// A request fails only where every account has been tried, where the upstream refused it for a
/// reason that concerns every account, or where its success could not be read.
pub proof fn failure_comes_last(d: DispatchView, event: EventView, now: int, now_millis: int)
    requires
        d.wf(),
        d.expects(event),
        stepped(d, event, now, now_millis).1 is Fail,
    ensures
        ({
            let after = stepped(d, event, now, now_millis).0;
            &&& after.phase is Over
            &&& {
                ||| after.at == d.accounts.len()
                ||| event matches EventView::Answered { status, .. } && !http::is_retryable(status)
            }
        }),
{
    lemma_step(d, event, now, now_millis);
}

/// An access token that the upstream refuses is refreshed, and the upstream is asked again, once
/// for each account; a second refusal passes the account over.
pub proof fn refused_token_is_refreshed_once(
    d: DispatchView,
    event: EventView,
    now: int,
    now_millis: int,
)
    requires
        d.wf(),
        d.phase is Sending,
        event matches EventView::Answered { status, .. } && status == 401,
    ensures
        match (d.phase->retried, d.account().refresh_token) {
            (false, Some(token)) => stepped(d, event, now, now_millis) == (
                d.in_phase(PhaseView::Refreshing { token, forced: true }),
                ActionView::Refresh(token),
            ),
            _ => stepped(d, event, now, now_millis).0.at > d.at,
        },
{
    assert forall|error: ErrorView| #[trigger] d.passed_over(error).at <= d.accounts.len() implies
        after_failure(d, error, now).0.at > d.at by {
        lemma_trying(d.passed_over(error), now);
    }
    assert(d.passed_over(refresh_failure(d.account().email, "missing refresh token"@)).at
        <= d.accounts.len());
    let status = event->Answered_status;
    let message = answer::upstream_error_text(status, error_body(event->Answered_body));
    assert(d.passed_over(ErrorView { status, message }).at <= d.accounts.len());
}

/// An account that is asked without a refresh has an access token that does not end soon.
pub proof fn first_try_has_a_fresh_token(d: DispatchView, now: int)
    requires
        0 <= d.at <= d.accounts.len(),
        trying(d, now).1 is Send,
    ensures
        !account::jwt_expired(
            trying(d, now).0.account().access_token,
            now + account::TOKEN_REFRESH_SKEW_SECONDS,
        ),
{
    lemma_trying(d, now);
}

/// An event, and when it came: at the second `now` and the millisecond `now_millis`.
pub struct Happening {
    pub event: EventView,
    pub now: int,
    pub now_millis: int,
}

/// Where a dispatch stands after the given events, one after another.
pub open spec fn ran(start: (DispatchView, ActionView), events: Seq<Happening>) -> (
    DispatchView,
    ActionView,
)
    decreases events.len(),
{
    if events.len() == 0 {
        start
    } else {
        let last = events.last();
        stepped(ran(start, events.drop_last()).0, last.event, last.now, last.now_millis)
    }
}

/// Whether each event can come of what the dispatch wants done before it.
pub open spec fn can_happen(start: (DispatchView, ActionView), events: Seq<Happening>) -> bool
    decreases events.len(),
{
    events.len() > 0 ==> {
        &&& can_happen(start, events.drop_last())
        &&& ran(start, events.drop_last()).0.expects(events.last().event)
    }
}

/// A run keeps to the request and the accounts that it began with, and every event leaves fewer to
/// come.
pub proof fn run_keeps_to_its_business(d: DispatchView, now: int, events: Seq<Happening>)
    requires
        d.at == 0,
        can_happen(trying(d, now), events),
    ensures
        ({
            let (after, action) = ran(trying(d, now), events);
            &&& after.wf()
            &&& same_business(after, d)
            &&& concerns_account(after, action)
            &&& action is Finish ==> after.at < after.accounts.len()
            &&& events.len() + steps_left(after) <= 6 * d.accounts.len()
            &&& 0 <= steps_left(after)
        }),
    decreases events.len(),
{
    if events.len() == 0 {
        lemma_trying(d, now);
    } else {
        run_keeps_to_its_business(d, now, events.drop_last());
        let before = ran(trying(d, now), events.drop_last());
        let last = events.last();
        lemma_step(before.0, last.event, last.now, last.now_millis);
        assert(before.0.at < before.0.accounts.len());
    }
}

} // verus!
