//! Retries of the requests of a live upload, so that a blip of the site does not
//! end a whole raid night. An expired session is renewed.

use vstd::prelude::*;

use crate::messages::{Message, MessageView};
use crate::numbers;

verus! {

broadcast use {vstd::string::group_string_axioms, vstd::seq::group_seq_axioms};

/// How often a request is tried.
pub const LIVE_RETRY_MAX: u32 = 120;

/// How long to wait behind a failure, in seconds.
pub const LIVE_RETRY_DELAY: u64 = 30;

/// How long to wait behind a new login, in seconds.
pub const LOGIN_DELAY: u64 = 3;

/// Whether an error says that the session has expired. `status` is the HTTP status
/// at the root of the error, where there is one.
pub fn is_unauthorized(status: Option<u16>) -> (r: bool)
    ensures
        r == (status == Some(401u16)),
{
    match status {
        Some(code) => code == 401,
        None => false,
    }
}

// ---- the course of a request ----------------------------------------------------------

/// What a request is waiting for.
#[derive(Clone, Copy, PartialEq, Eq, Structural, Debug)]
pub enum RetryPhase {
    /// The outcome of a try.
    Trying,
    /// A new login.
    LoggingIn,
    /// The next try.
    Waiting,
    /// Nothing: the request is over.
    Over,
}

/// An answer that a request got.
#[derive(Clone, Copy, PartialEq, Eq, Structural, Debug)]
pub enum RetryEvent {
    Succeeded,
    /// The try failed; whether the session has expired.
    Failed { unauthorized: bool },
    /// The login is over, however it went.
    LoggedIn,
    /// The wait is over.
    Waited,
}

/// What a request does next.
#[derive(Clone, Copy, PartialEq, Eq, Structural, Debug)]
pub enum RetryAction {
    /// Send the request.
    Try,
    /// Log in anew.
    LogIn,
    /// Wait, or be stopped.
    Wait { seconds: u64 },
    /// Return what the last try gave.
    Succeed,
    /// Return the error of the last try.
    Fail,
}

/// A failed try that is to be told: to the journal, and to the user where the
/// session is intact.
#[derive(Clone, Copy, PartialEq, Eq, Structural, Debug)]
pub struct RetryNote {
    pub attempt: u32,
    pub unauthorized: bool,
}

/// The state of a request.
#[derive(Clone, Copy, PartialEq, Eq, Structural, Debug)]
pub struct LiveRetry {
    pub phase: RetryPhase,
    /// The number of the try, from 1 on.
    pub attempt: u32,
}

/// One step of a request.
#[derive(Clone, Copy, PartialEq, Eq, Structural, Debug)]
pub struct RetryStep {
    pub state: LiveRetry,
    pub note: Option<RetryNote>,
    pub action: RetryAction,
}

pub open spec fn go(
    s: LiveRetry,
    phase: RetryPhase,
    note: Option<RetryNote>,
    action: RetryAction,
) -> RetryStep {
    RetryStep { state: LiveRetry { phase, ..s }, note, action }
}

/// The first try.
pub open spec fn begin() -> RetryStep {
    go(LiveRetry { phase: RetryPhase::Over, attempt: 1 }, RetryPhase::Trying, None, RetryAction::Try)
}

/// A try failed: the stop of the session ends the retries, and an expired session is
/// renewed before the wait.
pub open spec fn failed(s: LiveRetry, unauthorized: bool, cancelled: bool) -> RetryStep {
    let note = Some(RetryNote { attempt: s.attempt, unauthorized });
    if cancelled {
        go(s, RetryPhase::Over, None, RetryAction::Fail)
    } else if unauthorized {
        go(s, RetryPhase::LoggingIn, note, RetryAction::LogIn)
    } else {
        go(s, RetryPhase::Waiting, note, RetryAction::Wait { seconds: LIVE_RETRY_DELAY })
    }
}

/// The wait is over: the next try, or the end behind the last.
pub open spec fn waited(s: LiveRetry) -> RetryStep {
    if s.attempt < LIVE_RETRY_MAX {
        let more = LiveRetry { attempt: (s.attempt + 1) as u32, ..s };
        go(more, RetryPhase::Trying, None, RetryAction::Try)
    } else {
        go(s, RetryPhase::Over, None, RetryAction::Fail)
    }
}

/// What follows in state `s` on `event`; `cancelled` is the stop signal, read when
/// the event came in.
pub open spec fn next(s: LiveRetry, event: RetryEvent, cancelled: bool) -> RetryStep {
    match (s.phase, event) {
        (RetryPhase::Trying, RetryEvent::Succeeded) => go(
            s,
            RetryPhase::Over,
            None,
            RetryAction::Succeed,
        ),
        (RetryPhase::Trying, RetryEvent::Failed { unauthorized }) => failed(
            s,
            unauthorized,
            cancelled,
        ),
        (RetryPhase::LoggingIn, RetryEvent::LoggedIn) => go(
            s,
            RetryPhase::Waiting,
            None,
            RetryAction::Wait { seconds: LOGIN_DELAY },
        ),
        (RetryPhase::Waiting, RetryEvent::Waited) => waited(s),
        _ => go(s, RetryPhase::Over, None, RetryAction::Fail),
    }
}

fn step(
    s: LiveRetry,
    phase: RetryPhase,
    note: Option<RetryNote>,
    action: RetryAction,
) -> (r: RetryStep)
    ensures
        r == go(s, phase, note, action),
{
    RetryStep { state: LiveRetry { phase, ..s }, note, action }
}

impl LiveRetry {
    /// Starts a request.
    pub fn begin() -> (r: RetryStep)
        ensures
            r == begin(),
    {
        let s = LiveRetry { phase: RetryPhase::Over, attempt: 1 };
        step(s, RetryPhase::Trying, None, RetryAction::Try)
    }

    fn failed(self, unauthorized: bool, cancelled: bool) -> (r: RetryStep)
        ensures
            r == failed(self, unauthorized, cancelled),
    {
        let note = Some(RetryNote { attempt: self.attempt, unauthorized });
        if cancelled {
            step(self, RetryPhase::Over, None, RetryAction::Fail)
        } else if unauthorized {
            step(self, RetryPhase::LoggingIn, note, RetryAction::LogIn)
        } else {
            let action = RetryAction::Wait { seconds: LIVE_RETRY_DELAY };
            step(self, RetryPhase::Waiting, note, action)
        }
    }

    fn waited(self) -> (r: RetryStep)
        ensures
            r == waited(self),
    {
        if self.attempt < LIVE_RETRY_MAX {
            let more = LiveRetry { attempt: self.attempt + 1, ..self };
            step(more, RetryPhase::Trying, None, RetryAction::Try)
        } else {
            step(self, RetryPhase::Over, None, RetryAction::Fail)
        }
    }

    /// What follows on the answer `event`. An answer that the request does not wait
    /// for ends it as the last failure does.
    pub fn step(self, event: RetryEvent, cancelled: bool) -> (r: RetryStep)
        ensures
            r == next(self, event, cancelled),
    {
        match (self.phase, event) {
            (RetryPhase::Trying, RetryEvent::Succeeded) => step(
                self,
                RetryPhase::Over,
                None,
                RetryAction::Succeed,
            ),
            (RetryPhase::Trying, RetryEvent::Failed { unauthorized }) => self.failed(
                unauthorized,
                cancelled,
            ),
            (RetryPhase::LoggingIn, RetryEvent::LoggedIn) => step(
                self,
                RetryPhase::Waiting,
                None,
                RetryAction::Wait { seconds: LOGIN_DELAY },
            ),
            (RetryPhase::Waiting, RetryEvent::Waited) => self.waited(),
            _ => step(self, RetryPhase::Over, None, RetryAction::Fail),
        }
    }
}

/// What the user is told of a failed try.
pub open spec fn failure_text(attempt: nat, error: Seq<char>) -> Seq<char> {
    "Upload failed (attempt "@ + numbers::decimal(attempt) + "): "@ + error
}

/// What the user is told of a failed try, where anything is: an expired session is
/// renewed without a word.
pub fn failure_message(note: RetryNote, error: &str) -> (r: Option<Message>)
    ensures
        r is Some <==> !note.unauthorized,
        r matches Some(m) ==> m@ == (MessageView {
            state: "retrying"@,
            text: failure_text(note.attempt as nat, error@),
        }),
{
    if note.unauthorized {
        return None;
    }
    let mut text = "Upload failed (attempt ".to_owned();
    numbers::push_decimal(&mut text, note.attempt as u128);
    text.append("): ");
    text.append(error);
    Some(Message { state: "retrying".to_owned(), text })
}

// ---- laws -----------------------------------------------------------------------------

/// An answer, with the stop signal as it was then.
pub struct Answer {
    pub event: RetryEvent,
    pub cancelled: bool,
}

/// The last step of a request that got `answers`.
pub open spec fn run(answers: Seq<Answer>) -> RetryStep
    decreases answers.len(),
{
    if answers.len() == 0 {
        begin()
    } else {
        next(run(answers.drop_last()).state, answers.last().event, answers.last().cancelled)
    }
}

/// How many tries of the request failed.
pub open spec fn failures(answers: Seq<Answer>) -> nat
    decreases answers.len(),
{
    if answers.len() == 0 {
        0
    } else {
        let before = answers.drop_last();
        failures(before) + (if run(before).state.phase == RetryPhase::Trying
            && answers.last().event is Failed {
            1nat
        } else {
            0nat
        })
    }
}

/// How long the request was told to wait in all, in seconds.
pub open spec fn time_waited(answers: Seq<Answer>) -> nat
    decreases answers.len(),
{
    if answers.len() == 0 {
        0
    } else {
        time_waited(answers.drop_last()) + (match run(answers).action {
            RetryAction::Wait { seconds } => seconds as nat,
            _ => 0,
        })
    }
}

/// Every answer was one that the request was waiting for, and the session was not
/// stopped.
pub open spec fn undisturbed(answers: Seq<Answer>) -> bool
    decreases answers.len(),
{
    answers.len() == 0 || {
        let phase = run(answers.drop_last()).state.phase;
        let event = answers.last().event;
        &&& undisturbed(answers.drop_last())
        &&& !answers.last().cancelled
        &&& match phase {
            RetryPhase::Trying => event is Succeeded || event is Failed,
            RetryPhase::LoggingIn => event is LoggedIn,
            RetryPhase::Waiting => event is Waited,
            RetryPhase::Over => false,
        }
    }
}

proof fn lemma_run(answers: Seq<Answer>)
    ensures
        ({
            let s = run(answers).state;
            &&& 1 <= s.attempt <= LIVE_RETRY_MAX
            &&& s.phase == RetryPhase::Trying ==> failures(answers) == s.attempt - 1
            &&& s.phase == RetryPhase::LoggingIn || s.phase == RetryPhase::Waiting ==> failures(
                answers,
            ) == s.attempt
            &&& failures(answers) <= s.attempt
            &&& time_waited(answers) <= LIVE_RETRY_DELAY * failures(answers)
            &&& s.phase == RetryPhase::LoggingIn ==> time_waited(answers) <= LIVE_RETRY_DELAY * (
            failures(answers) - 1)
            &&& undisturbed(answers) && run(answers).action == RetryAction::Fail ==> failures(
                answers,
            ) == LIVE_RETRY_MAX
        }),
    decreases answers.len(),
{
    if answers.len() > 0 {
        lemma_run(answers.drop_last());
    }
}

/// A request is retried for up to an hour, and tried no more often than is set.
pub proof fn retries_last_up_to_an_hour(answers: Seq<Answer>)
    ensures
        time_waited(answers) <= 3600,
        run(answers).state.attempt <= LIVE_RETRY_MAX,
        failures(answers) <= LIVE_RETRY_MAX,
{
    lemma_run(answers);
}

/// Unless the session is stopped, a request fails only once all of its tries have.
pub proof fn requests_fail_only_when_exhausted(answers: Seq<Answer>)
    requires
        undisturbed(answers),
        run(answers).action == RetryAction::Fail,
    ensures
        failures(answers) == LIVE_RETRY_MAX,
{
    lemma_run(answers);
}

/// A stop ends a request at its next failure, without a further wait.
pub proof fn a_stop_ends_the_retries(s: LiveRetry, unauthorized: bool)
    requires
        s.phase == RetryPhase::Trying,
    ensures
        next(s, RetryEvent::Failed { unauthorized }, true).action == RetryAction::Fail,
        next(s, RetryEvent::Failed { unauthorized }, true).note is None,
{
}

/// Behind an expired session there is a new login, and then a short wait.
pub proof fn expired_sessions_are_renewed(s: LiveRetry, cancelled: bool)
    requires
        s.phase == RetryPhase::Trying,
    ensures
        ({
            let expired = next(s, RetryEvent::Failed { unauthorized: true }, false);
            let renewed = next(expired.state, RetryEvent::LoggedIn, cancelled);
            &&& expired.action == RetryAction::LogIn
            &&& renewed.action == RetryAction::Wait { seconds: LOGIN_DELAY }
        }),
{
}

/// A failed try is told with its number, and waited behind: half a minute where the
/// session is intact, and three seconds behind a new login where it has expired. The next
/// try follows, up to the hundred and twentieth.
pub proof fn failed_tries_are_followed_by_others(
    s: LiveRetry,
    unauthorized: bool,
    renewed: bool,
    waited: bool,
)
    requires
        s.phase == RetryPhase::Trying,
    ensures
        ({
            let failed = next(s, RetryEvent::Failed { unauthorized }, false);
            let waiting = if unauthorized {
                next(failed.state, RetryEvent::LoggedIn, renewed)
            } else {
                failed
            };
            let again = next(waiting.state, RetryEvent::Waited, waited);
            &&& failed.note == Some(RetryNote { attempt: s.attempt, unauthorized })
            &&& unauthorized ==> failed.action == RetryAction::LogIn && waiting.note is None
            &&& waiting.action == (RetryAction::Wait {
                seconds: if unauthorized {
                    3
                } else {
                    30
                },
            })
            &&& again.note is None
            &&& s.attempt < 120 ==> {
                &&& again.action == RetryAction::Try
                &&& again.state.attempt == s.attempt + 1
                &&& again.state.phase == RetryPhase::Trying
            }
            &&& s.attempt >= 120 ==> again.action == RetryAction::Fail
        }),
{
}

/// The first try is the first, and a success ends the request whenever it comes.
pub proof fn successes_end_the_request(s: LiveRetry, cancelled: bool)
    requires
        s.phase == RetryPhase::Trying,
    ensures
        begin().action == RetryAction::Try,
        begin().note is None,
        begin().state == (LiveRetry { phase: RetryPhase::Trying, attempt: 1 }),
        next(s, RetryEvent::Succeeded, cancelled).action == RetryAction::Succeed,
        next(s, RetryEvent::Succeeded, cancelled).note is None,
{
}

/// The number of a try is one more than the failures before it.
pub proof fn tries_are_counted(answers: Seq<Answer>)
    ensures
        run(answers).state.phase == RetryPhase::Trying ==> run(answers).state.attempt == failures(
            answers,
        ) + 1,
        run(answers).note matches Some(note) ==> note.attempt == failures(answers),
{
    lemma_run(answers);
    if answers.len() > 0 {
        lemma_run(answers.drop_last());
    }
}

/// What the user is told of a failed try.
pub proof fn failures_are_told(attempt: nat, error: Seq<char>)
    ensures
        failure_text(attempt, error) == "Upload failed (attempt "@ + numbers::decimal(attempt)
            + "): "@ + error,
{
}

/// An answer that the request does not wait for ends it, and is not told.
pub proof fn other_answers_end_the_request(s: LiveRetry, event: RetryEvent, cancelled: bool)
    requires
        match s.phase {
            RetryPhase::Trying => !(event is Succeeded) && !(event is Failed),
            RetryPhase::LoggingIn => !(event is LoggedIn),
            RetryPhase::Waiting => !(event is Waited),
            RetryPhase::Over => true,
        },
    ensures
        next(s, event, cancelled) == (RetryStep {
            state: LiveRetry { phase: RetryPhase::Over, attempt: s.attempt },
            note: None,
            action: RetryAction::Fail,
        }),
{
}

/// A session has expired where the site answers with 401, and nowhere else.
pub proof fn sessions_expire_with_their_status(status: Option<u16>, unauthorized: bool)
    requires
        call_ensures(is_unauthorized, (status,), unauthorized),
    ensures
        unauthorized <==> status == Some(401u16),
{
}

/// A failed try is told unless the session has expired.
pub proof fn expired_sessions_are_not_told(note: RetryNote, error: &str, told: Option<Message>)
    requires
        call_ensures(failure_message, (note, error), told),
    ensures
        note.unauthorized ==> told is None,
        !note.unauthorized ==> (told matches Some(message) && {
            &&& message@.state == "retrying"@
            &&& message@.text == "Upload failed (attempt "@ + numbers::decimal(
                note.attempt as nat,
            ) + "): "@ + error@
        }),
{
}

} // verus!
