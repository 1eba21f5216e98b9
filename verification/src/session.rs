//! The decisions that open a database session: connect, sign in with the
//! configured credentials, then select the namespace and database. Each stage
//! is retried on its own back-off schedule. The caller performs each action
//! and reports what came of it.

use vstd::prelude::*;

use crate::shared::{backoff_delay, RetryConfig, RetryRun};
use crate::surreal::{pair_view, sign_in_order, sign_in_view, ConnectionSettings, SignIn};
use crate::text::owned;

verus! {

broadcast use vstd::string::group_string_axioms;

/// Where the opening of a session stands.
pub enum Stage {
    /// Opening the connection.
    Connecting,
    /// Trying the credentials, most specific first.
    SigningIn,
    /// Selecting the namespace and database.
    SelectingNamespace,
    /// The session is open.
    Ready,
    /// A stage failed on every retry.
    Failed,
}

/// What came of the last action.
pub enum ConnectEvent {
    /// The connection, sign-in or selection succeeded.
    Succeeded,
    /// It failed, with this error.
    Failed(String),
    /// The requested wait is over.
    Waited,
}

/// What the caller is to do next.
pub enum ConnectAction {
    /// Open the connection to the configured endpoint.
    Connect,
    /// Sign in with these credentials.
    SignIn(SignIn),
    /// Select the configured namespace and database.
    SelectNamespace,
    /// Wait this many milliseconds, then report `Waited`.
    Wait(u128),
    /// The session is open.
    Ready,
    /// Give up with this error.
    GiveUp(String),
}

/// A `ConnectEvent` with its error as a character sequence.
pub enum ConnectEventView {
    Succeeded,
    Failed(Seq<char>),
    Waited,
}

/// A `ConnectAction` with its credentials and error as character sequences.
pub enum ConnectActionView {
    Connect,
    SignIn(Seq<Seq<char>>),
    SelectNamespace,
    Wait(nat),
    Ready,
    GiveUp(Seq<char>),
}

impl View for ConnectEvent {
    type V = ConnectEventView;

    open spec fn view(&self) -> ConnectEventView {
        match self {
            ConnectEvent::Succeeded => ConnectEventView::Succeeded,
            ConnectEvent::Failed(e) => ConnectEventView::Failed(e@),
            ConnectEvent::Waited => ConnectEventView::Waited,
        }
    }
}

impl View for ConnectAction {
    type V = ConnectActionView;

    open spec fn view(&self) -> ConnectActionView {
        match self {
            ConnectAction::Connect => ConnectActionView::Connect,
            ConnectAction::SignIn(s) => ConnectActionView::SignIn(sign_in_view(*s)),
            ConnectAction::SelectNamespace => ConnectActionView::SelectNamespace,
            ConnectAction::Wait(d) => ConnectActionView::Wait(*d as nat),
            ConnectAction::Ready => ConnectActionView::Ready,
            ConnectAction::GiveUp(e) => ConnectActionView::GiveUp(e@),
        }
    }
}

/// The changing part of a session opening.
pub struct ConnectState {
    pub stage: Stage,
    /// The credentials whose sign-in is under way.
    pub next_sign_in: nat,
    /// Retries granted in the current stage.
    pub retries: nat,
    /// Whether a wait is under way.
    pub waiting: bool,
}

// ---------------------------------------------------------------------------
// Specification
// ---------------------------------------------------------------------------

/// The error of a sign-in round that had no credentials to try.
pub open spec fn no_sign_in_message() -> Seq<char> {
    "No SurrealDB authentication methods succeeded"@
}

/// The back-off of each stage, as initial delay in milliseconds, maximum delay
/// in seconds and number of retries: connecting 100 ms, 5 s, 5; signing in
/// 100 ms, 3 s, 3; selecting the namespace 50 ms, 2 s, 3.
pub open spec fn stage_retry(stage: Stage) -> (nat, nat, nat) {
    match stage {
        Stage::Connecting => (100, 5, 5),
        Stage::SigningIn => (100, 3, 3),
        _ => (50, 2, 3),
    }
}

/// The `i`-th delay of the schedule of `stage`.
pub open spec fn stage_delay(stage: Stage, i: nat) -> nat {
    backoff_delay(stage_retry(stage).0, stage_retry(stage).1, i)
}

/// The session is still being opened.
pub open spec fn is_active(stage: Stage) -> bool {
    stage is Connecting || stage is SigningIn || stage is SelectingNamespace
}

/// The start of `stage`, with no retry spent.
pub open spec fn enter(stage: Stage) -> ConnectState {
    ConnectState { stage, next_sign_in: 0, retries: 0, waiting: false }
}

/// After a failed attempt at the current stage with error `err`: wait the next
/// delay of the stage's schedule and try again, or, with the schedule used up,
/// give up with `err`.
pub open spec fn after_failure(s: ConnectState, err: Seq<char>) -> (ConnectState, ConnectActionView) {
    if s.retries < stage_retry(s.stage).2 {
        (
            ConnectState { stage: s.stage, next_sign_in: s.next_sign_in, retries: s.retries + 1, waiting: true },
            ConnectActionView::Wait(stage_delay(s.stage, s.retries)),
        )
    } else {
        (
            ConnectState { stage: Stage::Failed, next_sign_in: s.next_sign_in, retries: s.retries, waiting: false },
            ConnectActionView::GiveUp(err),
        )
    }
}

/// A round of sign-in attempts: the first credentials, or, with none, a failed
/// round.
pub open spec fn start_round(sign_ins: Seq<Seq<Seq<char>>>, s: ConnectState) -> (ConnectState, ConnectActionView) {
    if sign_ins.len() > 0 {
        (
            ConnectState { stage: s.stage, next_sign_in: 0, retries: s.retries, waiting: false },
            ConnectActionView::SignIn(sign_ins[0]),
        )
    } else {
        after_failure(s, no_sign_in_message())
    }
}

/// The next state and action, given the credentials in the order they are tried,
/// the current state and the event.
pub open spec fn connect_step(sign_ins: Seq<Seq<Seq<char>>>, s: ConnectState, e: ConnectEventView) -> (
    ConnectState,
    ConnectActionView,
) {
    match e {
        ConnectEventView::Waited => {
            let s1 = ConnectState { stage: s.stage, next_sign_in: s.next_sign_in, retries: s.retries, waiting: false };
            match s.stage {
                Stage::Connecting => (s1, ConnectActionView::Connect),
                Stage::SigningIn => start_round(sign_ins, s1),
                _ => (s1, ConnectActionView::SelectNamespace),
            }
        },
        ConnectEventView::Succeeded => match s.stage {
            Stage::Connecting => start_round(sign_ins, enter(Stage::SigningIn)),
            Stage::SigningIn => (enter(Stage::SelectingNamespace), ConnectActionView::SelectNamespace),
            _ => (enter(Stage::Ready), ConnectActionView::Ready),
        },
        ConnectEventView::Failed(err) => if s.stage is SigningIn && s.next_sign_in + 1 < sign_ins.len() {
            (
                ConnectState { stage: s.stage, next_sign_in: s.next_sign_in + 1, retries: s.retries, waiting: false },
                ConnectActionView::SignIn(sign_ins[s.next_sign_in + 1 as int]),
            )
        } else {
            after_failure(s, err)
        },
    }
}

/// The events a state can take: the end of a wait while waiting, else what came
/// of the pending action; none once the session is open or has failed.
pub open spec fn accepts(s: ConnectState, e: ConnectEventView) -> bool {
    is_active(s.stage) && (s.waiting <==> e is Waited)
}

/// The retries spent stay within the stage's schedule, and a pending sign-in
/// names existing credentials.
pub open spec fn state_wf(sign_ins: Seq<Seq<Seq<char>>>, s: ConnectState) -> bool {
    &&& is_active(s.stage) ==> s.retries <= stage_retry(s.stage).2
    &&& (s.stage is SigningIn && !s.waiting) ==> s.next_sign_in < sign_ins.len()
}

// ---------------------------------------------------------------------------
// The state machine
// ---------------------------------------------------------------------------

/// The opening of a session: the credentials to try, in order, and where it stands.
pub struct Connector {
    /// The credentials, most specific first.
    pub sign_ins: Vec<SignIn>,
    pub stage: Stage,
    pub next_sign_in: usize,
    pub waiting: bool,
    /// The retry run of the current stage.
    pub retry: RetryRun,
}

fn copy_sign_in(s: &SignIn) -> (r: SignIn)
    ensures
        sign_in_view(r) == sign_in_view(*s),
{
    match s {
        SignIn::Database { namespace, database, username, password } => SignIn::Database {
            namespace: namespace.clone(),
            database: database.clone(),
            username: username.clone(),
            password: password.clone(),
        },
        SignIn::Namespace { namespace, username, password } => SignIn::Namespace {
            namespace: namespace.clone(),
            username: username.clone(),
            password: password.clone(),
        },
        SignIn::Root { username, password } => SignIn::Root {
            username: username.clone(),
            password: password.clone(),
        },
    }
}

/// The retry configuration of `stage`.
fn stage_config(stage: &Stage) -> (c: RetryConfig)
    ensures
        (c.initial_delay_millis as nat, c.max_delay_secs as nat, c.max_retries as nat) == stage_retry(*stage),
{
    match stage {
        Stage::Connecting => RetryConfig::new(100, 5, 5),
        Stage::SigningIn => RetryConfig::new(100, 3, 3),
        _ => RetryConfig::new(50, 2, 3),
    }
}

impl Connector {
    /// The credentials by their views.
    pub open spec fn plan(&self) -> Seq<Seq<Seq<char>>> {
        self.sign_ins@.map_values(|s: SignIn| sign_in_view(s))
    }

    /// Where the opening stands.
    pub open spec fn state(&self) -> ConnectState {
        ConnectState {
            stage: self.stage,
            next_sign_in: self.next_sign_in as nat,
            retries: self.retry.retries as nat,
            waiting: self.waiting,
        }
    }

    /// The retry run follows the schedule of the current stage.
    pub open spec fn on_schedule(&self) -> bool {
        &&& self.retry.wf()
        &&& is_active(self.stage) ==> {
            &&& self.retry.delays@.len() == stage_retry(self.stage).2
            &&& forall|i: int|
                0 <= i < self.retry.delays@.len() ==> #[trigger] self.retry.delays@[i] == stage_delay(
                    self.stage,
                    i as nat,
                )
        }
    }

    /// On schedule, with the retries and the pending sign-in in range.
    pub open spec fn wf(&self) -> bool {
        &&& self.on_schedule()
        &&& state_wf(self.plan(), self.state())
    }

    /// The opening of a session with `settings`: the credentials in the order
    /// they are tried; the first action is to connect.
    pub fn new(settings: &ConnectionSettings) -> (r: (Connector, ConnectAction))
        ensures
            r.0.wf(),
            r.0.plan() == sign_in_order(
                settings.namespace@,
                settings.database@,
                pair_view(settings.database_credentials),
                pair_view(settings.namespace_credentials),
                pair_view(settings.root_credentials),
            ),
            r.0.state() == enter(Stage::Connecting),
            r.1@ == ConnectActionView::Connect,
    {
        let sign_ins = settings.sign_in_attempts();
        let retry = RetryRun::new(stage_config(&Stage::Connecting));
        (Connector { sign_ins, stage: Stage::Connecting, next_sign_in: 0, waiting: false, retry }, ConnectAction::Connect)
    }

    /// Moves to `stage` with a fresh retry run.
    fn enter_stage(&mut self, stage: Stage)
        requires
            is_active(stage),
        ensures
            final(self).sign_ins == old(self).sign_ins,
            final(self).state() == enter(stage),
            final(self).retry.wf(),
            final(self).retry.delays@.len() == stage_retry(stage).2,
            forall|i: int|
                0 <= i < final(self).retry.delays@.len() ==> #[trigger] final(self).retry.delays@[i]
                    == stage_delay(stage, i as nat),
    {
        let c = stage_config(&stage);
        self.retry = RetryRun::new(c);
        self.stage = stage;
        self.next_sign_in = 0;
        self.waiting = false;
    }

    /// Waits and retries, or gives up with `err`.
    fn retry_or_give_up(&mut self, err: String) -> (a: ConnectAction)
        requires
            old(self).on_schedule(),
            is_active(old(self).stage),
            !old(self).waiting,
        ensures
            final(self).wf(),
            final(self).sign_ins == old(self).sign_ins,
            (final(self).state(), a@) == after_failure(old(self).state(), err@),
    {
        match self.retry.after_failure() {
            Some(d) => {
                self.waiting = true;
                ConnectAction::Wait(d)
            },
            None => {
                self.stage = Stage::Failed;
                ConnectAction::GiveUp(err)
            },
        }
    }

    /// Starts a round of sign-in attempts.
    fn begin_round(&mut self) -> (a: ConnectAction)
        requires
            old(self).on_schedule(),
            old(self).stage is SigningIn,
            !old(self).waiting,
        ensures
            final(self).wf(),
            final(self).sign_ins == old(self).sign_ins,
            (final(self).state(), a@) == start_round(old(self).plan(), old(self).state()),
    {
        assert(self.plan().len() == self.sign_ins@.len());
        if self.sign_ins.len() > 0 {
            self.next_sign_in = 0;
            let s = copy_sign_in(&self.sign_ins[0]);
            ConnectAction::SignIn(s)
        } else {
            self.retry_or_give_up(owned("No SurrealDB authentication methods succeeded"))
        }
    }

    /// Takes what came of the last action and says what to do next.
    pub fn step(&mut self, event: ConnectEvent) -> (a: ConnectAction)
        requires
            old(self).wf(),
            accepts(old(self).state(), event@),
        ensures
            final(self).wf(),
            final(self).plan() == old(self).plan(),
            (final(self).state(), a@) == connect_step(old(self).plan(), old(self).state(), event@),
    {
        match event {
            ConnectEvent::Waited => {
                self.waiting = false;
                match self.stage {
                    Stage::Connecting => ConnectAction::Connect,
                    Stage::SigningIn => self.begin_round(),
                    _ => ConnectAction::SelectNamespace,
                }
            },
            ConnectEvent::Succeeded => match self.stage {
                Stage::Connecting => {
                    self.enter_stage(Stage::SigningIn);
                    self.begin_round()
                },
                Stage::SigningIn => {
                    self.enter_stage(Stage::SelectingNamespace);
                    ConnectAction::SelectNamespace
                },
                _ => {
                    self.stage = Stage::Ready;
                    self.next_sign_in = 0;
                    self.retry = RetryRun { delays: Vec::new(), retries: 0 };
                    ConnectAction::Ready
                },
            },
            ConnectEvent::Failed(err) => {
                assert(self.plan().len() == self.sign_ins@.len());
                let more = match self.stage {
                    Stage::SigningIn => {
                        assert(!(event@ is Waited));
                        assert(self.next_sign_in < self.sign_ins.len());
                        self.next_sign_in + 1 < self.sign_ins.len()
                    },
                    _ => false,
                };
                if more {
                    self.next_sign_in = self.next_sign_in + 1;
                    let s = copy_sign_in(&self.sign_ins[self.next_sign_in]);
                    ConnectAction::SignIn(s)
                } else {
                    self.retry_or_give_up(err)
                }
            },
        }
    }
}

// ---------------------------------------------------------------------------
// Laws
// ---------------------------------------------------------------------------

/// The state and the actions after the events `es`, one after another.
pub open spec fn run(sign_ins: Seq<Seq<Seq<char>>>, s: ConnectState, es: Seq<ConnectEventView>) -> (
    ConnectState,
    Seq<ConnectActionView>,
)
    decreases es.len(),
{
    if es.len() == 0 {
        (s, seq![])
    } else {
        let (t, acts) = run(sign_ins, s, es.drop_last());
        let (u, a) = connect_step(sign_ins, t, es.last());
        (u, acts.push(a))
    }
}

/// Failures, one per error.
pub open spec fn failures(errs: Seq<Seq<char>>) -> Seq<ConnectEventView> {
    errs.map_values(|e: Seq<char>| ConnectEventView::Failed(e))
}

/// Every step keeps the state well formed.
pub proof fn law_step_keeps_state_wf(sign_ins: Seq<Seq<Seq<char>>>, s: ConnectState, e: ConnectEventView)
    requires
        state_wf(sign_ins, s),
        accepts(s, e),
    ensures
        state_wf(sign_ins, connect_step(sign_ins, s, e).0),
{
}

/// A successful sign-in ends the round: no further credentials are tried, and the
/// namespace is selected next on a fresh schedule.
pub proof fn law_sign_in_stops_at_first_success(sign_ins: Seq<Seq<Seq<char>>>, s: ConnectState)
    requires
        s.stage is SigningIn,
        !s.waiting,
    ensures
        connect_step(sign_ins, s, ConnectEventView::Succeeded) == (
            enter(Stage::SelectingNamespace),
            ConnectActionView::SelectNamespace,
        ),
{
}

/// A round of sign-ins in which every attempt fails tries the credentials in order,
/// each once, without spending a retry; when the last one fails, the round's error
/// is that last failure's, and the stage waits for its next retry or gives up with it.
pub proof fn law_failed_round_keeps_last_error(
    sign_ins: Seq<Seq<Seq<char>>>,
    s: ConnectState,
    errs: Seq<Seq<char>>,
)
    requires
        s.stage is SigningIn,
        !s.waiting,
        s.next_sign_in == 0,
        0 < errs.len() <= sign_ins.len(),
    ensures
        ({
            let (t, acts) = run(sign_ins, s, failures(errs));
            &&& acts.len() == errs.len()
            &&& forall|i: int| 0 <= i < errs.len() - 1 ==> #[trigger] acts[i] == ConnectActionView::SignIn(sign_ins[i + 1])
            &&& errs.len() < sign_ins.len() ==> t == ConnectState {
                stage: Stage::SigningIn,
                next_sign_in: errs.len(),
                retries: s.retries,
                waiting: false,
            }
            &&& errs.len() == sign_ins.len() ==> (t, acts.last()) == after_failure(
                ConnectState { stage: Stage::SigningIn, next_sign_in: (errs.len() - 1) as nat, retries: s.retries, waiting: false },
                errs.last(),
            )
        }),
    decreases errs.len(),
{
    let es = failures(errs);
    assert(es.drop_last() =~= failures(errs.drop_last()));
    if errs.len() > 1 {
        law_failed_round_keeps_last_error(sign_ins, s, errs.drop_last());
    }
}

/// A stage gives up only once its schedule is used up, and then with the error of
/// the failure just reported, or, for a sign-in round without credentials, with the
/// message that no method succeeded.
pub proof fn law_give_up_reports_last_error(sign_ins: Seq<Seq<Seq<char>>>, s: ConnectState, e: ConnectEventView)
    requires
        state_wf(sign_ins, s),
        accepts(s, e),
    ensures
        connect_step(sign_ins, s, e).1 matches ConnectActionView::GiveUp(m) ==> {
            &&& connect_step(sign_ins, s, e).0.stage is Failed
            &&& s.retries == stage_retry(s.stage).2
            &&& (e == ConnectEventView::Failed(m) || (m == no_sign_in_message() && sign_ins.len() == 0))
        },
{
}

/// Each wait spends one retry of the current stage, waits the schedule's next
/// delay and leaves the stage unchanged; so a stage waits at most as often as its
/// schedule has delays.
pub proof fn law_wait_spends_a_retry(sign_ins: Seq<Seq<Seq<char>>>, s: ConnectState, e: ConnectEventView)
    requires
        state_wf(sign_ins, s),
        accepts(s, e),
    ensures
        connect_step(sign_ins, s, e).1 matches ConnectActionView::Wait(d) ==> {
            let t = connect_step(sign_ins, s, e).0;
            &&& t.waiting
            &&& (t.stage == s.stage || (s.stage is Connecting && t.stage is SigningIn))
            &&& d == stage_delay(t.stage, (t.retries - 1) as nat)
            &&& t.retries <= stage_retry(t.stage).2
            &&& (t.stage == s.stage ==> t.retries == s.retries + 1)
        },
{
}

/// Every event of `es` is one the state it reaches can take.
pub open spec fn run_accepted(sign_ins: Seq<Seq<Seq<char>>>, s: ConnectState, es: Seq<ConnectEventView>) -> bool
    decreases es.len(),
{
    es.len() == 0 || (run_accepted(sign_ins, s, es.drop_last()) && accepts(
        run(sign_ins, s, es.drop_last()).0,
        es.last(),
    ))
}

/// How many of `acts` open the connection.
pub open spec fn connect_count(acts: Seq<ConnectActionView>) -> nat
    decreases acts.len(),
{
    if acts.len() == 0 {
        0
    } else if acts.last() is Connect {
        connect_count(acts.drop_last()) + 1
    } else {
        connect_count(acts.drop_last())
    }
}

proof fn lemma_connect_count_invariant(sign_ins: Seq<Seq<Seq<char>>>, es: Seq<ConnectEventView>)
    requires
        run_accepted(sign_ins, enter(Stage::Connecting), es),
    ensures
        ({
            let (t, acts) = run(sign_ins, enter(Stage::Connecting), es);
            &&& state_wf(sign_ins, t)
            &&& connect_count(acts) <= stage_retry(Stage::Connecting).2
            &&& t.stage is Connecting ==> connect_count(acts) + (if t.waiting { 1nat } else { 0nat }) == t.retries
        }),
    decreases es.len(),
{
    if es.len() > 0 {
        lemma_connect_count_invariant(sign_ins, es.drop_last());
        let (t, acts) = run(sign_ins, enter(Stage::Connecting), es.drop_last());
        let (u, a) = connect_step(sign_ins, t, es.last());
        assert(acts.push(a).drop_last() =~= acts);
        law_step_keeps_state_wf(sign_ins, t, es.last());
    }
}

/// Opening the connection is retried only on its schedule: whatever comes back,
/// the connection is opened again at most five times after the first attempt,
/// so at most six times in all.
pub proof fn law_connection_attempts_are_bounded(sign_ins: Seq<Seq<Seq<char>>>, es: Seq<ConnectEventView>)
    requires
        run_accepted(sign_ins, enter(Stage::Connecting), es),
    ensures
        connect_count(run(sign_ins, enter(Stage::Connecting), es).1) <= 5,
{
    lemma_connect_count_invariant(sign_ins, es);
}

/// How many of `acts` sign in.
pub open spec fn sign_in_count(acts: Seq<ConnectActionView>) -> nat
    decreases acts.len(),
{
    if acts.len() == 0 {
        0
    } else if acts.last() is SignIn {
        sign_in_count(acts.drop_last()) + 1
    } else {
        sign_in_count(acts.drop_last())
    }
}

proof fn lemma_sign_in_count_invariant(sign_ins: Seq<Seq<Seq<char>>>, es: Seq<ConnectEventView>)
    requires
        run_accepted(sign_ins, enter(Stage::Connecting), es),
    ensures
        ({
            let (t, acts) = run(sign_ins, enter(Stage::Connecting), es);
            let n = sign_ins.len();
            &&& state_wf(sign_ins, t)
            &&& sign_in_count(acts) <= (stage_retry(Stage::SigningIn).2 + 1) * n
            &&& t.stage is Connecting ==> sign_in_count(acts) == 0
            &&& (t.stage is SigningIn && t.waiting) ==> sign_in_count(acts) == t.retries * n
            &&& (t.stage is SigningIn && !t.waiting) ==> sign_in_count(acts) == t.retries * n + t.next_sign_in + 1
        }),
    decreases es.len(),
{
    if es.len() > 0 {
        lemma_sign_in_count_invariant(sign_ins, es.drop_last());
        let (t, acts) = run(sign_ins, enter(Stage::Connecting), es.drop_last());
        let (u, a) = connect_step(sign_ins, t, es.last());
        let n = sign_ins.len();
        assert(acts.push(a).drop_last() =~= acts);
        law_step_keeps_state_wf(sign_ins, t, es.last());
        let r = t.retries;
        assert((r + 1) * n == r * n + n) by (nonlinear_arith);
        assert(r <= 3 ==> r * n <= 3 * n) by (nonlinear_arith);
        assert(0 * n == 0) by (nonlinear_arith);
        assert(1 * n == n) by (nonlinear_arith);
        assert(4 * n == 3 * n + n) by (nonlinear_arith);
        if t.stage is SigningIn {
            assert(r <= 3);
        }
    }
}

/// Signing in is retried only on its schedule: whatever comes back, each round
/// tries the credentials once each, and there are at most four rounds, so at most
/// four sign-ins per set of credentials.
pub proof fn law_sign_ins_are_bounded(sign_ins: Seq<Seq<Seq<char>>>, es: Seq<ConnectEventView>)
    requires
        run_accepted(sign_ins, enter(Stage::Connecting), es),
    ensures
        sign_in_count(run(sign_ins, enter(Stage::Connecting), es).1) <= 4 * sign_ins.len(),
{
    lemma_sign_in_count_invariant(sign_ins, es);
}

} // verus!
