//! The decisions a client connection makes: the version handshake, the
//! authentication phase, which requests a session may make, which plan is
//! loaded on connect, who hears of a change, and what becomes of a WebSocket
//! frame.
//!
//! The connection loop itself (reading frames, talking to storage and the
//! plan engine) performs I/O; it asks these functions what to do.
use vstd::prelude::*;

use crate::utf8_text::text_eq;

verus! {

/// Whether a client announcing `client_version` may go on to authenticate
/// with a server of `server_version`: only the very same version is accepted,
/// anything else is answered with a version error and the connection closed.
pub fn version_accepted(client_version: &str, server_version: &str) -> (r: bool)
    ensures
        r == (client_version@ == server_version@),
{
    text_eq(client_version, server_version)
}

// ── Requests ────────────────────────────────────────────────────────────────

/// A request of an authenticated session, as far as the server's rules about
/// who may make it are concerned.
pub enum RequestKind {
    SavePlan,
    NewPlan,
    LoadPlan,
    ListPlans,
    DeletePlan,
    SetCurrentUser,
    LoadMondayConfig,
    LoadMondayApiToken,
    SaveMondayConfig,
    MondayTestConnection,
    MondayFetchBoardInfo,
    MondayPull,
    MondayFullReimport,
    MondayPushPreview,
    MondayPush,
    GetAuthUsers,
    CreateAuthUser,
    UpdateAuthUser,
    SetAuthUserPassword,
    /// Deleting the account with this user id.
    DeleteAuthUser(String),
    ChangeMyPassword,
    GetUserLinks,
    SetUserLinks,
    GetPlanVisibility,
    SetPlanVisibility,
    ListPlanVersions,
    RestorePlanVersion,
    /// Any other request: an edit that the plan engine applies to the
    /// active plan.
    PlanEdit,
}

/// Why a request is answered with an error without being carried out.
pub enum Refusal {
    /// The request is reserved to administrators.
    Unauthorized,
    /// An administrator asked to delete their own account.
    OwnAccount,
    /// The request works on the active plan and none is loaded.
    NoPlanActive,
}

impl Refusal {
    /// The text of the error sent back for an [`Refusal::OwnAccount`]
    /// refusal; the others are sent as error codes without text.
    pub fn message(&self) -> (r: Option<&'static str>)
        ensures
            (self is OwnAccount) == r is Some,
            r matches Some(t) ==> t@ == "Cannot delete your own account"@,
    {
        proof {
            reveal_strlit("Cannot delete your own account");
        }
        match self {
            Refusal::OwnAccount => Some("Cannot delete your own account"),
            _ => None,
        }
    }
}

/// Requests that only an administrator may make.
pub open spec fn admin_only(kind: RequestKind) -> bool {
    match kind {
        RequestKind::GetAuthUsers => true,
        RequestKind::CreateAuthUser => true,
        RequestKind::UpdateAuthUser => true,
        RequestKind::SetAuthUserPassword => true,
        RequestKind::DeleteAuthUser(_) => true,
        RequestKind::GetPlanVisibility => true,
        RequestKind::SetPlanVisibility => true,
        RequestKind::RestorePlanVersion => true,
        _ => false,
    }
}

/// Requests that work on the plan currently loaded in the engine.
pub open spec fn needs_active_plan(kind: RequestKind) -> bool {
    match kind {
        RequestKind::MondayPull => true,
        RequestKind::MondayFullReimport => true,
        RequestKind::MondayPushPreview => true,
        RequestKind::MondayPush => true,
        RequestKind::PlanEdit => true,
        _ => false,
    }
}

/// The refusal of `kind` from a session of user `session_user` (an
/// administrator when `is_admin`) while a plan is loaded when `plan_active`;
/// `None` when the request is carried out.
pub open spec fn refusal_of(
    kind: RequestKind,
    is_admin: bool,
    session_user: Seq<char>,
    plan_active: bool,
) -> Option<Refusal> {
    if admin_only(kind) && !is_admin {
        Some(Refusal::Unauthorized)
    } else if kind matches RequestKind::DeleteAuthUser(target) && target@ == session_user {
        Some(Refusal::OwnAccount)
    } else if needs_active_plan(kind) && !plan_active {
        Some(Refusal::NoPlanActive)
    } else {
        None
    }
}

fn is_admin_only(kind: &RequestKind) -> (r: bool)
    ensures
        r == admin_only(*kind),
{
    match kind {
        RequestKind::GetAuthUsers => true,
        RequestKind::CreateAuthUser => true,
        RequestKind::UpdateAuthUser => true,
        RequestKind::SetAuthUserPassword => true,
        RequestKind::DeleteAuthUser(_) => true,
        RequestKind::GetPlanVisibility => true,
        RequestKind::SetPlanVisibility => true,
        RequestKind::RestorePlanVersion => true,
        _ => false,
    }
}

fn works_on_active_plan(kind: &RequestKind) -> (r: bool)
    ensures
        r == needs_active_plan(*kind),
{
    match kind {
        RequestKind::MondayPull => true,
        RequestKind::MondayFullReimport => true,
        RequestKind::MondayPushPreview => true,
        RequestKind::MondayPush => true,
        RequestKind::PlanEdit => true,
        _ => false,
    }
}

/// Whether a session may have `kind` carried out, and if not, why: requests
/// reserved to administrators are refused to everyone else, an administrator
/// cannot delete their own account, and work on the active plan is refused
/// while none is loaded.
pub fn gate_request(
    kind: &RequestKind,
    is_admin: bool,
    session_user_id: &str,
    plan_active: bool,
) -> (r: Option<Refusal>)
    ensures
        r == refusal_of(*kind, is_admin, session_user_id@, plan_active),
{
    if is_admin_only(kind) && !is_admin {
        return Some(Refusal::Unauthorized);
    }
    if let RequestKind::DeleteAuthUser(target) = kind {
        if text_eq(target.as_str(), session_user_id) {
            return Some(Refusal::OwnAccount);
        }
    }
    if works_on_active_plan(kind) && !plan_active {
        return Some(Refusal::NoPlanActive);
    }
    None
}

/// A request reserved to administrators is refused as unauthorized exactly
/// when the session is not an administrator's.
pub proof fn lemma_unauthorized_iff_not_admin(
    kind: RequestKind,
    is_admin: bool,
    session_user: Seq<char>,
    plan_active: bool,
)
    requires
        admin_only(kind),
    ensures
        (refusal_of(kind, is_admin, session_user, plan_active) == Some(Refusal::Unauthorized))
            <==> !is_admin,
{
}

/// No request is ever refused as unauthorized to an administrator, nor one
/// that is not reserved to administrators.
pub proof fn lemma_unauthorized_only_for_admin_requests(
    kind: RequestKind,
    is_admin: bool,
    session_user: Seq<char>,
    plan_active: bool,
)
    requires
        refusal_of(kind, is_admin, session_user, plan_active) == Some(Refusal::Unauthorized),
    ensures
        admin_only(kind),
        !is_admin,
{
}

/// An administrator's request to delete an account is refused exactly when
/// the account is the administrator's own.
pub proof fn lemma_own_account_kept(
    target: String,
    session_user: Seq<char>,
    plan_active: bool,
)
    ensures
        (refusal_of(RequestKind::DeleteAuthUser(target), true, session_user, plan_active)
            == Some(Refusal::OwnAccount)) <==> target@ == session_user,
        refusal_of(RequestKind::DeleteAuthUser(target), true, session_user, plan_active) is None
            <==> target@ != session_user,
{
}

/// A request that is neither reserved to administrators nor works on the
/// active plan is carried out for every session, whatever is loaded.
pub proof fn lemma_open_requests_never_refused(
    kind: RequestKind,
    is_admin: bool,
    session_user: Seq<char>,
    plan_active: bool,
)
    requires
        !admin_only(kind),
        !needs_active_plan(kind),
    ensures
        refusal_of(kind, is_admin, session_user, plan_active) is None,
{
}

/// With a plan loaded, a request is refused only for want of rights.
pub proof fn lemma_active_plan_refusals(
    kind: RequestKind,
    is_admin: bool,
    session_user: Seq<char>,
)
    ensures
        !(refusal_of(kind, is_admin, session_user, true) matches Some(Refusal::NoPlanActive)),
{
}

/// Requests are refused for want of a loaded plan exactly when no plan is
/// loaded and the request works on the plan itself: an edit of the plan, or
/// a Monday.com pull, full re-import, push preview or push. Every other
/// request (a connection test, listing or loading plans, account work, …)
/// is never refused for that reason.
pub proof fn lemma_no_plan_refusals(
    kind: RequestKind,
    is_admin: bool,
    session_user: Seq<char>,
    plan_active: bool,
)
    ensures
        (refusal_of(kind, is_admin, session_user, plan_active) == Some(Refusal::NoPlanActive))
            <==> (!plan_active && (kind is PlanEdit || kind is MondayPull || kind is MondayFullReimport
            || kind is MondayPushPreview || kind is MondayPush)),
{
}

// ── On connect ──────────────────────────────────────────────────────────────

pub open spec fn auto_load_of(
    engine_empty: bool,
    last_plan: Option<u128>,
    visible: Seq<u128>,
) -> Option<u128> {
    if engine_empty && last_plan is Some && visible.contains(last_plan->0) {
        last_plan
    } else {
        None
    }
}

/// The plan loaded for a newly authenticated session: the user's last plan,
/// when no plan is loaded yet and that plan is among those `visible` to the
/// user; otherwise none.
pub fn auto_load_target(engine_empty: bool, last_plan: Option<u128>, visible: &Vec<u128>) -> (r:
    Option<u128>)
    ensures
        r == auto_load_of(engine_empty, last_plan, visible@),
{
    if !engine_empty {
        return None;
    }
    match last_plan {
        None => None,
        Some(id) => {
            let mut i: usize = 0;
            while i < visible.len()
                invariant
                    engine_empty,
                    last_plan == Some(id),
                    i <= visible@.len(),
                    forall|j: int| 0 <= j < i ==> visible@[j] != id,
                decreases visible@.len() - i,
            {
                if visible[i] == id {
                    assert(visible@[i as int] == id);
                    return Some(id);
                }
                i = i + 1;
            }
            None
        },
    }
}

/// A session is never given a plan that is hidden from its user.
pub proof fn lemma_auto_load_visible(engine_empty: bool, last_plan: Option<u128>, visible: Seq<u128>)
    ensures
        auto_load_of(engine_empty, last_plan, visible) matches Some(id) ==> visible.contains(id)
            && last_plan == Some(id) && engine_empty,
{
}

// ── Broadcasting ────────────────────────────────────────────────────────────

pub open spec fn is_other(my_id: u64) -> spec_fn(u64) -> bool {
    |id: u64| id != my_id
}

/// The sessions that receive a changed plan from session `my_id`: every
/// registered session but the one that made the change, in the order given.
pub fn broadcast_targets(my_id: u64, sessions: &Vec<u64>) -> (r: Vec<u64>)
    ensures
        r@ == sessions@.filter(is_other(my_id)),
{
    let mut r: Vec<u64> = Vec::new();
    let mut i: usize = 0;
    while i < sessions.len()
        invariant
            i <= sessions@.len(),
            r@ == sessions@.take(i as int).filter(is_other(my_id)),
        decreases sessions@.len() - i,
    {
        proof {
            reveal(Seq::filter);
            assert(sessions@.take(i + 1).drop_last() =~= sessions@.take(i as int));
        }
        if sessions[i] != my_id {
            r.push(sessions[i]);
        }
        i = i + 1;
    }
    assert(sessions@.take(sessions@.len() as int) =~= sessions@);
    r
}

/// A change is never echoed to the session that made it, and reaches every
/// other registered session.
pub proof fn lemma_broadcast_reaches_others(my_id: u64, sessions: Seq<u64>, other: u64)
    ensures
        !sessions.filter(is_other(my_id)).contains(my_id),
        sessions.contains(other) && other != my_id ==> sessions.filter(is_other(my_id)).contains(
            other,
        ),
{
    broadcast use vstd::seq_lib::group_filter_ensures;

    if sessions.filter(is_other(my_id)).contains(my_id) {
        let k = choose|k: int|
            0 <= k < sessions.filter(is_other(my_id)).len() && sessions.filter(
                is_other(my_id),
            )[k] == my_id;
        assert(is_other(my_id)(sessions.filter(is_other(my_id))[k]));
    }
    if sessions.contains(other) && other != my_id {
        let k = choose|k: int| 0 <= k < sessions.len() && sessions[k] == other;
        assert(is_other(my_id)(sessions[k]));
    }
}

// ── The connection as a state machine ──────────────────────────────────────

/// The phase a client connection is in.
pub enum Phase {
    /// The server's hello is sent; the client's is awaited.
    AwaitingHello,
    /// A login or a stored session token is awaited.
    AwaitingAuth,
    /// Authenticated as `user_id`, an administrator when `is_admin`.
    Ready { user_id: String, is_admin: bool },
    /// The connection is over.
    Closed,
}

/// What the connection loop learnt: a client message, as far as the protocol
/// decides on it, or the end of a piece of work it was asked to do.
pub enum Event {
    /// The client's hello, with its version.
    Hello(String),
    /// A login that the database accepted for this user.
    LoginAccepted { user_id: String, is_admin: bool },
    /// A login that the database refused.
    LoginRejected,
    /// A session token that the database accepted for this user.
    TokenAccepted { user_id: String, is_admin: bool },
    /// A session token that the database refused.
    TokenRejected,
    /// The client logs out.
    Logout,
    /// A request with the id its reply must carry.
    Request { id: u64, kind: RequestKind },
    /// A carried-out request is done and its reply sent; `plan_updated` when
    /// it changed the active plan.
    Completed { plan_updated: bool },
    /// A message that did not parse, or one the protocol does not expect.
    Other,
    /// The client went away, or reading failed.
    Disconnected,
}

/// What the connection loop is to send or do, in order.
pub enum Outgoing {
    /// The server's hello with its version.
    Hello { version: String },
    /// The version the server expected and the one the client sent.
    VersionError { expected: String, got: String },
    /// A request to log in.
    AuthRequired,
    /// The session's token, user and preferences.
    LoginSuccess,
    /// The message of the refused login or token.
    LoginFailed,
    /// The active plan's state, or that no plan is active.
    InitialState,
    /// The reply to request `id`: the error for `refusal`.
    Refused { id: u64, refusal: Refusal },
    /// Carry out request `id` and send its one reply under `id`.
    Carry { id: u64, kind: RequestKind },
    /// The changed plan's state, to this client.
    PlanState,
    /// The changed plan's state, to every other session.
    Broadcast,
    /// Log the session token out.
    EndSession,
}

/// How a connection starts: the server's hello is sent first.
pub open spec fn connect_of(server_version: String) -> (Phase, Seq<Outgoing>) {
    (Phase::AwaitingHello, seq![Outgoing::Hello { version: server_version }])
}

/// The phase and the messages of an authentication-phase event.
pub open spec fn auth_phase_step(event: Event) -> (Phase, Seq<Outgoing>) {
    match event {
        Event::LoginAccepted { user_id, is_admin } => (
            Phase::Ready { user_id, is_admin },
            seq![Outgoing::LoginSuccess, Outgoing::InitialState],
        ),
        Event::TokenAccepted { user_id, is_admin } => (
            Phase::Ready { user_id, is_admin },
            seq![Outgoing::LoginSuccess, Outgoing::InitialState],
        ),
        Event::LoginRejected => (Phase::AwaitingAuth, seq![Outgoing::LoginFailed]),
        Event::TokenRejected => (
            Phase::AwaitingAuth,
            seq![Outgoing::LoginFailed, Outgoing::AuthRequired],
        ),
        Event::Disconnected => (Phase::Closed, Seq::empty()),
        _ => (Phase::AwaitingAuth, Seq::empty()),
    }
}

/// The next phase of a connection in `phase` on `event`, and what it sends
/// or does, for a server of version `server_version` while a plan is loaded
/// when `plan_active`.
pub open spec fn step_of(phase: Phase, event: Event, server_version: String, plan_active: bool) -> (
    Phase,
    Seq<Outgoing>,
) {
    match phase {
        Phase::AwaitingHello => match event {
            Event::Hello(v) => if v@ == server_version@ {
                (Phase::AwaitingAuth, seq![Outgoing::AuthRequired])
            } else {
                (Phase::Closed, seq![Outgoing::VersionError { expected: server_version, got: v }])
            },
            _ => (Phase::Closed, Seq::empty()),
        },
        Phase::AwaitingAuth => auth_phase_step(event),
        Phase::Ready { user_id, is_admin } => match event {
            Event::Logout => (Phase::Closed, seq![Outgoing::EndSession]),
            Event::Disconnected => (Phase::Closed, Seq::empty()),
            Event::Request { id, kind } => (
                Phase::Ready { user_id, is_admin },
                match refusal_of(kind, is_admin, user_id@, plan_active) {
                    Some(refusal) => seq![Outgoing::Refused { id, refusal }],
                    None => seq![Outgoing::Carry { id, kind }],
                },
            ),
            Event::Completed { plan_updated } => (
                Phase::Ready { user_id, is_admin },
                if plan_updated {
                    seq![Outgoing::PlanState, Outgoing::Broadcast]
                } else {
                    Seq::empty()
                },
            ),
            _ => (Phase::Ready { user_id, is_admin }, Seq::empty()),
        },
        Phase::Closed => (Phase::Closed, Seq::empty()),
    }
}

/// The start of a connection: await the client's hello after sending ours,
/// which carries the server's version.
pub fn connect(server_version: String) -> (r: (Phase, Vec<Outgoing>))
    ensures
        r.0 == connect_of(server_version).0,
        r.1@ == connect_of(server_version).1,
{
    let mut out: Vec<Outgoing> = Vec::new();
    out.push(Outgoing::Hello { version: server_version });
    (Phase::AwaitingHello, out)
}

/// One step of a client connection: the next phase and what to send or do
/// for `event`, for a server of version `server_version`, while a plan is
/// loaded when `plan_active`.
pub fn protocol_step(phase: Phase, event: Event, server_version: String, plan_active: bool) -> (r: (
    Phase,
    Vec<Outgoing>,
))
    ensures
        r.0 == step_of(phase, event, server_version, plan_active).0,
        r.1@ == step_of(phase, event, server_version, plan_active).1,
{
    let mut out: Vec<Outgoing> = Vec::new();
    match phase {
        Phase::AwaitingHello => match event {
            Event::Hello(v) => {
                if version_accepted(v.as_str(), server_version.as_str()) {
                    out.push(Outgoing::AuthRequired);
                    (Phase::AwaitingAuth, out)
                } else {
                    out.push(Outgoing::VersionError { expected: server_version, got: v });
                    (Phase::Closed, out)
                }
            },
            _ => (Phase::Closed, out),
        },
        Phase::AwaitingAuth => match event {
            Event::LoginAccepted { user_id, is_admin } => {
                out.push(Outgoing::LoginSuccess);
                out.push(Outgoing::InitialState);
                (Phase::Ready { user_id, is_admin }, out)
            },
            Event::TokenAccepted { user_id, is_admin } => {
                out.push(Outgoing::LoginSuccess);
                out.push(Outgoing::InitialState);
                (Phase::Ready { user_id, is_admin }, out)
            },
            Event::LoginRejected => {
                out.push(Outgoing::LoginFailed);
                (Phase::AwaitingAuth, out)
            },
            Event::TokenRejected => {
                out.push(Outgoing::LoginFailed);
                out.push(Outgoing::AuthRequired);
                (Phase::AwaitingAuth, out)
            },
            Event::Disconnected => (Phase::Closed, out),
            _ => (Phase::AwaitingAuth, out),
        },
        Phase::Ready { user_id, is_admin } => match event {
            Event::Logout => {
                out.push(Outgoing::EndSession);
                (Phase::Closed, out)
            },
            Event::Disconnected => (Phase::Closed, out),
            Event::Request { id, kind } => {
                match gate_request(&kind, is_admin, user_id.as_str(), plan_active) {
                    Some(refusal) => out.push(Outgoing::Refused { id, refusal }),
                    None => out.push(Outgoing::Carry { id, kind }),
                }
                (Phase::Ready { user_id, is_admin }, out)
            },
            Event::Completed { plan_updated } => {
                if plan_updated {
                    out.push(Outgoing::PlanState);
                    out.push(Outgoing::Broadcast);
                }
                (Phase::Ready { user_id, is_admin }, out)
            },
            _ => (Phase::Ready { user_id, is_admin }, out),
        },
        Phase::Closed => (Phase::Closed, out),
    }
}

/// A connection driven through `events` from `phase`: the phase it ends in
/// and everything it sent or did, in order.
pub open spec fn run(phase: Phase, events: Seq<Event>, server_version: String, plan_active: bool) -> (
    Phase,
    Seq<Outgoing>,
)
    decreases events.len(),
{
    if events.len() == 0 {
        (phase, Seq::empty())
    } else {
        let first = step_of(phase, events[0], server_version, plan_active);
        let rest = run(first.0, events.drop_first(), server_version, plan_active);
        (rest.0, first.1 + rest.1)
    }
}

/// The handshake: the server's hello, with its version, comes first; a
/// client of another version is then sent a version error naming the
/// expected and the received version, and the connection is closed, while a
/// client of the same version is asked to log in.
pub proof fn lemma_handshake(client_version: String, server_version: String, plan_active: bool)
    ensures
        ({
            let h = step_of(
                connect_of(server_version).0,
                Event::Hello(client_version),
                server_version,
                plan_active,
            );
            &&& client_version@ != server_version@ ==> h.0 is Closed && connect_of(server_version).1
                + h.1 =~= seq![
                Outgoing::Hello { version: server_version },
                Outgoing::VersionError { expected: server_version, got: client_version },
            ]
            &&& client_version@ == server_version@ ==> h.0 is AwaitingAuth && connect_of(
                server_version,
            ).1 + h.1 =~= seq![Outgoing::Hello { version: server_version }, Outgoing::AuthRequired]
        }),
{
}

/// A closed connection stays closed and does nothing more, whatever comes.
pub proof fn lemma_closed_is_final(events: Seq<Event>, server_version: String, plan_active: bool)
    ensures
        run(Phase::Closed, events, server_version, plan_active).0 is Closed,
        run(Phase::Closed, events, server_version, plan_active).1 =~= Seq::<Outgoing>::empty(),
    decreases events.len(),
{
    if events.len() > 0 {
        lemma_closed_is_final(events.drop_first(), server_version, plan_active);
    }
}

/// No accepted login or token among `events`.
pub open spec fn never_accepted(events: Seq<Event>) -> bool {
    forall|i: int|
        0 <= i < events.len() ==> !(#[trigger] events[i] is LoginAccepted) && !(
        events[i] is TokenAccepted)
}

/// Until a login or a token is accepted, a connection waiting to
/// authenticate stays waiting (or closes), sends nothing but login failures
/// and requests to log in, and carries out no request.
pub proof fn lemma_unauthenticated_run(
    events: Seq<Event>,
    server_version: String,
    plan_active: bool,
)
    requires
        never_accepted(events),
    ensures
        ({
            let r = run(Phase::AwaitingAuth, events, server_version, plan_active);
            &&& r.0 is AwaitingAuth || r.0 is Closed
            &&& forall|i: int|
                0 <= i < r.1.len() ==> (#[trigger] r.1[i] is LoginFailed) || r.1[i] is AuthRequired
        }),
    decreases events.len(),
{
    if events.len() > 0 {
        let rest = events.drop_first();
        assert(never_accepted(rest)) by {
            assert forall|i: int| 0 <= i < rest.len() implies !(#[trigger] rest[i] is LoginAccepted)
                && !(rest[i] is TokenAccepted) by {
                assert(rest[i] == events[i + 1]);
            }
        }
        assert(!(events[0] is LoginAccepted) && !(events[0] is TokenAccepted));
        let first = step_of(Phase::AwaitingAuth, events[0], server_version, plan_active);
        if first.0 is Closed {
            lemma_closed_is_final(rest, server_version, plan_active);
        } else {
            lemma_unauthenticated_run(rest, server_version, plan_active);
        }
    }
}

/// A whole session whose client has the server's version but never logs in
/// successfully: the server's hello, a request to log in, then only login
/// failures and requests to log in; no request is carried out or refused.
pub proof fn lemma_session_without_login(
    events: Seq<Event>,
    server_version: String,
    plan_active: bool,
    client_version: String,
)
    requires
        client_version@ == server_version@,
        never_accepted(events),
    ensures
        ({
            let after_hello = step_of(
                connect_of(server_version).0,
                Event::Hello(client_version),
                server_version,
                plan_active,
            );
            let r = run(after_hello.0, events, server_version, plan_active);
            let sent = connect_of(server_version).1 + after_hello.1 + r.1;
            &&& sent.len() >= 2
            &&& sent[0] == Outgoing::Hello { version: server_version }
            &&& sent[1] is AuthRequired
            &&& forall|i: int|
                2 <= i < sent.len() ==> (#[trigger] sent[i] is LoginFailed) || sent[i] is AuthRequired
        }),
{
    lemma_unauthenticated_run(events, server_version, plan_active);
    let r = run(Phase::AwaitingAuth, events, server_version, plan_active);
    let sent = seq![Outgoing::Hello { version: server_version }] + seq![Outgoing::AuthRequired] + r.1;
    assert forall|i: int| 2 <= i < sent.len() implies (#[trigger] sent[i] is LoginFailed)
        || sent[i] is AuthRequired by {
        assert(sent[i] == r.1[i - 2]);
    }
}

/// The authentication phase is left exactly on an accepted login or token,
/// for the user it was accepted for.
pub proof fn lemma_auth_left_only_when_accepted(
    event: Event,
    server_version: String,
    plan_active: bool,
)
    ensures
        (step_of(Phase::AwaitingAuth, event, server_version, plan_active).0 is Ready) <==> (
        event is LoginAccepted || event is TokenAccepted),
{
}

/// Logging out ends the session.
pub proof fn lemma_logout_closes(
    user_id: String,
    is_admin: bool,
    server_version: String,
    plan_active: bool,
)
    ensures
        step_of(Phase::Ready { user_id, is_admin }, Event::Logout, server_version, plan_active).0 is Closed,
{
}

/// Every request gets exactly one reply, carrying its id: the refusal when
/// there is one, or else the reply of the work carried out; the session
/// stays as it was.
pub proof fn lemma_one_reply_per_request(
    user_id: String,
    is_admin: bool,
    id: u64,
    kind: RequestKind,
    server_version: String,
    plan_active: bool,
)
    ensures
        ({
            let r = step_of(
                Phase::Ready { user_id, is_admin },
                Event::Request { id, kind },
                server_version,
                plan_active,
            );
            &&& r.0 == Phase::Ready { user_id, is_admin }
            &&& r.1.len() == 1
            &&& match refusal_of(kind, is_admin, user_id@, plan_active) {
                Some(refusal) => r.1[0] == Outgoing::Refused { id, refusal },
                None => r.1[0] == Outgoing::Carry { id, kind },
            }
        }),
{
}

/// A change of the plan is sent to this client and then to every other
/// session; work that changed nothing sends nothing more.
pub proof fn lemma_update_is_broadcast(
    user_id: String,
    is_admin: bool,
    plan_updated: bool,
    server_version: String,
    plan_active: bool,
)
    ensures
        ({
            let r = step_of(
                Phase::Ready { user_id, is_admin },
                Event::Completed { plan_updated },
                server_version,
                plan_active,
            );
            &&& plan_updated ==> r.1 =~= seq![Outgoing::PlanState, Outgoing::Broadcast]
            &&& !plan_updated ==> r.1 =~= Seq::<Outgoing>::empty()
        }),
{
}

// ── WebSocket frames ────────────────────────────────────────────────────────

/// One read from a client's WebSocket, as the connection loop sees it.
pub enum Frame {
    Text(String),
    Close,
    Ping(Vec<u8>),
    /// A binary, pong or other frame.
    Ignored,
    /// No data arrived within the read timeout.
    Timeout,
    /// Reading failed.
    Failed,
}

/// What the connection loop does with a [`Frame`].
pub enum FrameAction {
    /// Hand the text to the protocol handler.
    Forward(String),
    /// Answer with a pong carrying the ping's data.
    Pong(Vec<u8>),
    /// Go on reading.
    Continue,
    /// Close the connection.
    Stop,
}

pub open spec fn frame_action_of(frame: Frame, phase: Phase) -> FrameAction {
    match frame {
        Frame::Text(t) => FrameAction::Forward(t),
        Frame::Ping(d) => FrameAction::Pong(d),
        Frame::Ignored => FrameAction::Continue,
        Frame::Timeout => if phase is AwaitingHello {
            FrameAction::Stop
        } else {
            FrameAction::Continue
        },
        Frame::Close => FrameAction::Stop,
        Frame::Failed => FrameAction::Stop,
    }
}

/// The action for one frame read while the connection is in `phase`: text
/// goes to the protocol handler, a ping is answered, a close or a read error
/// ends the connection, and anything else is skipped. A read that times out
/// ends the connection while the client's hello is still awaited (a client
/// must greet at once) and is skipped later.
pub fn frame_action(frame: Frame, phase: &Phase) -> (r: FrameAction)
    ensures
        r == frame_action_of(frame, *phase),
{
    match frame {
        Frame::Text(t) => FrameAction::Forward(t),
        Frame::Ping(d) => FrameAction::Pong(d),
        Frame::Ignored => FrameAction::Continue,
        Frame::Timeout => match phase {
            Phase::AwaitingHello => FrameAction::Stop,
            _ => FrameAction::Continue,
        },
        Frame::Close => FrameAction::Stop,
        Frame::Failed => FrameAction::Stop,
    }
}

} // verus!
