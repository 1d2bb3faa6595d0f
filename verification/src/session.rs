//! A live session: from the login to the end of the report, and which session is
//! the running one.

use vstd::prelude::*;

use crate::messages;
use crate::messages::{Message, MessageView};

verus! {

broadcast use {vstd::string::group_string_axioms, vstd::seq::group_seq_axioms};

/// What a live session is started with.
#[derive(Debug, Clone)]
pub struct LiveLogArgs {
    pub directory: String,
    pub email: String,
    pub password: String,
    pub region: i32,
    pub visibility: i32,
    pub guild_id: Option<i64>,
    pub include_entire_file_in_report: bool,
    pub enable_real_time_uploading: bool,
}

/// The name of a live report.
pub const LIVE_REPORT_NAME: &'static str = "live.log";

// ---- the course of a session --------------------------------------------------------

/// What a session is waiting for.
#[derive(Clone, Copy, PartialEq, Eq, Structural, Debug)]
pub enum SessionPhase {
    /// A connection to the site.
    Opening,
    /// The login.
    LoggingIn,
    /// The parser's code.
    Fetching,
    /// The place of the parser's harness.
    Locating,
    /// The parser to run.
    Starting,
    /// The parser to forget everything.
    Clearing,
    /// The site to create the report.
    Creating,
    /// The parser to leave out the fights before this moment.
    SettingStart,
    /// The tail of the log.
    Tailing,
    /// The parser to end.
    Closing,
    /// The site to end the report.
    Terminating,
    /// Nothing: the session is over.
    Over,
}

/// What a session does next.
#[derive(Clone, Copy, PartialEq, Eq, Debug)]
pub enum SessionAction {
    OpenSession,
    LogIn,
    FetchParser,
    LocateHarness,
    StartParser,
    ClearParser,
    /// Create a report that starts and ends at the time of its creation, in
    /// milliseconds since the Unix epoch.
    CreateReport { name: &'static str, start_time: i64, end_time: i64 },
    /// Leave out the fights before the report's start.
    SetStartTime { start_ms: i64 },
    /// Tail the log for the report that starts at this time.
    Tail { start_ms: i64 },
    CloseParser,
    TerminateReport,
    /// The session failed with the error at hand.
    Fail,
    /// The session is over; whether there is a report to show.
    Done { report: bool },
}

/// What a session tells the user.
#[derive(Clone, Copy, PartialEq, Eq, Structural, Debug)]
pub enum SessionNote {
    Initializing,
    LoggingIn,
    LoggedIn,
    FetchingParser,
    StartingParser,
    ReportCreated,
}

/// The state of a session.
#[derive(Clone, Copy, PartialEq, Eq, Structural, Debug)]
pub struct Session {
    pub phase: SessionPhase,
    /// The report covers the whole log file, not only what follows its start.
    pub include_entire_file: bool,
    /// The report has been created.
    pub report: bool,
    /// Something behind the start of the parser has failed.
    pub failed: bool,
    /// When the report starts, in milliseconds since the Unix epoch; 0 before that is
    /// known.
    pub start_ms: i64,
}

/// One step of a session.
pub struct SessionStep {
    pub state: Session,
    pub notes: Vec<SessionNote>,
    pub action: SessionAction,
}

/// One step of a session as plain values.
pub struct SessionStepView {
    pub state: Session,
    pub notes: Seq<SessionNote>,
    pub action: SessionAction,
}

impl View for SessionStep {
    type V = SessionStepView;

    open spec fn view(&self) -> SessionStepView {
        SessionStepView { state: self.state, notes: self.notes@, action: self.action }
    }
}

pub open spec fn go(
    s: Session,
    phase: SessionPhase,
    notes: Seq<SessionNote>,
    action: SessionAction,
) -> SessionStepView {
    SessionStepView { state: Session { phase, ..s }, notes, action }
}

/// The start of a session.
pub open spec fn begin(include_entire_file: bool) -> SessionStepView {
    SessionStepView {
        state: Session {
            phase: SessionPhase::Opening,
            include_entire_file,
            report: false,
            failed: false,
            start_ms: 0,
        },
        notes: seq![SessionNote::Initializing],
        action: SessionAction::OpenSession,
    }
}

/// The parser runs: it is ended, and so is the report, whatever has failed.
pub open spec fn close(s: Session, failed: bool) -> SessionStepView {
    go(
        Session { failed, ..s },
        SessionPhase::Closing,
        Seq::empty(),
        SessionAction::CloseParser,
    )
}

/// The end of a session.
pub open spec fn end(s: Session) -> SessionStepView {
    go(
        s,
        SessionPhase::Over,
        Seq::empty(),
        if s.failed {
            SessionAction::Fail
        } else {
            SessionAction::Done { report: s.report }
        },
    )
}

/// The report exists. The existing file is still parsed for its actors and
/// abilities where the fights before this moment are left out.
pub open spec fn created(s: Session) -> SessionStepView {
    let r = Session { report: true, ..s };
    let notes = seq![SessionNote::ReportCreated];
    if s.include_entire_file {
        go(
            r,
            SessionPhase::Tailing,
            notes,
            SessionAction::Tail { start_ms: s.start_ms },
        )
    } else {
        go(
            r,
            SessionPhase::SettingStart,
            notes,
            SessionAction::SetStartTime { start_ms: s.start_ms },
        )
    }
}

/// The parser is ready: the report starts now.
pub open spec fn create(s: Session, now: i64) -> SessionStepView {
    go(
        Session { start_ms: now, ..s },
        SessionPhase::Creating,
        Seq::empty(),
        SessionAction::CreateReport {
            name: LIVE_REPORT_NAME,
            start_time: now,
            end_time: now,
        },
    )
}

/// What follows in state `s` where what was asked for worked, or failed. `now` is the
/// time of that, in milliseconds since the Unix epoch.
pub open spec fn next(s: Session, ok: bool, now: i64) -> SessionStepView {
    match s.phase {
        SessionPhase::Opening if ok => go(
            s,
            SessionPhase::LoggingIn,
            seq![SessionNote::LoggingIn],
            SessionAction::LogIn,
        ),
        SessionPhase::LoggingIn if ok => go(
            s,
            SessionPhase::Fetching,
            seq![SessionNote::LoggedIn, SessionNote::FetchingParser],
            SessionAction::FetchParser,
        ),
        SessionPhase::Fetching if ok => go(
            s,
            SessionPhase::Locating,
            Seq::empty(),
            SessionAction::LocateHarness,
        ),
        SessionPhase::Locating if ok => go(
            s,
            SessionPhase::Starting,
            seq![SessionNote::StartingParser],
            SessionAction::StartParser,
        ),
        SessionPhase::Starting if ok => go(
            s,
            SessionPhase::Clearing,
            Seq::empty(),
            SessionAction::ClearParser,
        ),
        SessionPhase::Clearing if ok => create(s, now),
        SessionPhase::Creating if ok => created(s),
        SessionPhase::SettingStart if ok => go(
            s,
            SessionPhase::Tailing,
            Seq::empty(),
            SessionAction::Tail { start_ms: s.start_ms },
        ),
        SessionPhase::Clearing | SessionPhase::Creating | SessionPhase::SettingStart => close(
            s,
            true,
        ),
        SessionPhase::Tailing => close(s, !ok),
        SessionPhase::Closing if s.report => go(
            s,
            SessionPhase::Terminating,
            Seq::empty(),
            SessionAction::TerminateReport,
        ),
        SessionPhase::Closing | SessionPhase::Terminating => end(s),
        _ => go(
            Session { failed: true, ..s },
            SessionPhase::Over,
            Seq::empty(),
            SessionAction::Fail,
        ),
    }
}

fn step(
    s: Session,
    phase: SessionPhase,
    notes: Vec<SessionNote>,
    action: SessionAction,
) -> (r: SessionStep)
    ensures
        r@ == go(s, phase, notes@, action),
{
    SessionStep { state: Session { phase, ..s }, notes, action }
}

fn one(note: SessionNote) -> (r: Vec<SessionNote>)
    ensures
        r@ == seq![note],
{
    let mut notes: Vec<SessionNote> = Vec::new();
    notes.push(note);
    assert(notes@ =~= seq![note]);
    notes
}

fn two(first: SessionNote, second: SessionNote) -> (r: Vec<SessionNote>)
    ensures
        r@ == seq![first, second],
{
    let mut notes = one(first);
    notes.push(second);
    assert(notes@ =~= seq![first, second]);
    notes
}

impl Session {
    /// Starts a session.
    pub fn begin(include_entire_file: bool) -> (r: SessionStep)
        ensures
            r@ == begin(include_entire_file),
    {
        SessionStep {
            state: Session {
                phase: SessionPhase::Opening,
                include_entire_file,
                report: false,
                failed: false,
                start_ms: 0,
            },
            notes: one(SessionNote::Initializing),
            action: SessionAction::OpenSession,
        }
    }

    fn close(self, failed: bool) -> (r: SessionStep)
        ensures
            r@ == close(self, failed),
    {
        step(
            Session { failed, ..self },
            SessionPhase::Closing,
            Vec::new(),
            SessionAction::CloseParser,
        )
    }

    fn end(self) -> (r: SessionStep)
        ensures
            r@ == end(self),
    {
        let action = if self.failed {
            SessionAction::Fail
        } else {
            SessionAction::Done { report: self.report }
        };
        step(self, SessionPhase::Over, Vec::new(), action)
    }

    fn created(self) -> (r: SessionStep)
        ensures
            r@ == created(self),
    {
        let s = Session { report: true, ..self };
        let notes = one(SessionNote::ReportCreated);
        if self.include_entire_file {
            let action = SessionAction::Tail { start_ms: self.start_ms };
            step(s, SessionPhase::Tailing, notes, action)
        } else {
            let action = SessionAction::SetStartTime { start_ms: self.start_ms };
            step(s, SessionPhase::SettingStart, notes, action)
        }
    }

    fn create(self, now: i64) -> (r: SessionStep)
        ensures
            r@ == create(self, now),
    {
        let action = SessionAction::CreateReport {
            name: LIVE_REPORT_NAME,
            start_time: now,
            end_time: now,
        };
        step(Session { start_ms: now, ..self }, SessionPhase::Creating, Vec::new(), action)
    }

    /// What follows once what was asked for worked, or failed. `now` is the time of
    /// that, in milliseconds since the Unix epoch.
    pub fn step(self, ok: bool, now: i64) -> (r: SessionStep)
        ensures
            r@ == next(self, ok, now),
    {
        let none: Vec<SessionNote> = Vec::new();
        match self.phase {
            SessionPhase::Opening if ok => step(
                self,
                SessionPhase::LoggingIn,
                one(SessionNote::LoggingIn),
                SessionAction::LogIn,
            ),
            SessionPhase::LoggingIn if ok => step(
                self,
                SessionPhase::Fetching,
                two(SessionNote::LoggedIn, SessionNote::FetchingParser),
                SessionAction::FetchParser,
            ),
            SessionPhase::Fetching if ok => step(
                self,
                SessionPhase::Locating,
                none,
                SessionAction::LocateHarness,
            ),
            SessionPhase::Locating if ok => step(
                self,
                SessionPhase::Starting,
                one(SessionNote::StartingParser),
                SessionAction::StartParser,
            ),
            SessionPhase::Starting if ok => step(
                self,
                SessionPhase::Clearing,
                none,
                SessionAction::ClearParser,
            ),
            SessionPhase::Clearing if ok => self.create(now),
            SessionPhase::Creating if ok => self.created(),
            SessionPhase::SettingStart if ok => step(
                self,
                SessionPhase::Tailing,
                none,
                SessionAction::Tail { start_ms: self.start_ms },
            ),
            SessionPhase::Clearing | SessionPhase::Creating | SessionPhase::SettingStart => {
                self.close(true)
            },
            SessionPhase::Tailing => self.close(!ok),
            SessionPhase::Closing if self.report => step(
                self,
                SessionPhase::Terminating,
                none,
                SessionAction::TerminateReport,
            ),
            SessionPhase::Closing | SessionPhase::Terminating => self.end(),
            _ => step(
                Session { failed: true, ..self },
                SessionPhase::Over,
                none,
                SessionAction::Fail,
            ),
        }
    }
}

/// What the user is told of a note; `detail` is the user's name behind a login and
/// the report's code where a report is created.
pub open spec fn note_text(note: SessionNote, detail: Seq<char>) -> Seq<char> {
    match note {
        SessionNote::Initializing => "Initializing session..."@,
        SessionNote::LoggingIn => "Logging in..."@,
        SessionNote::LoggedIn => "Logged in as "@ + detail,
        SessionNote::FetchingParser => "Fetching latest parser..."@,
        SessionNote::StartingParser => "Starting parser..."@,
        SessionNote::ReportCreated => "Live report created: "@ + detail,
    }
}

/// What the user is told of a note. `detail` is the user's name behind a login, and the
/// report's code where a report is created.
pub fn session_message(note: SessionNote, detail: &str) -> (r: Message)
    ensures
        r@ == (MessageView { state: "waiting"@, text: note_text(note, detail@) }),
{
    let text = match note {
        SessionNote::Initializing => "Initializing session...".to_owned(),
        SessionNote::LoggingIn => "Logging in...".to_owned(),
        SessionNote::LoggedIn => messages::joined("Logged in as ", detail),
        SessionNote::FetchingParser => "Fetching latest parser...".to_owned(),
        SessionNote::StartingParser => "Starting parser...".to_owned(),
        SessionNote::ReportCreated => messages::joined("Live report created: ", detail),
    };
    Message { state: "waiting".to_owned(), text }
}

/// The name that an account is shown under: `?` where it has none.
pub fn shown_name(user_name: Option<String>) -> (r: String)
    ensures
        r@ == (match user_name {
            Some(name) => name@,
            None => "?"@,
        }),
{
    match user_name {
        Some(name) => name,
        None => "?".to_owned(),
    }
}

/// The address of a live report.
pub fn report_url(code: &str) -> (r: String)
    ensures
        r@ == "https://www.warcraftlogs.com/reports/"@ + code@,
{
    messages::joined("https://www.warcraftlogs.com/reports/", code)
}

/// The error for a path that should be a directory and is none.
pub fn not_a_directory(path: &str) -> (r: String)
    ensures
        r@ == "not a directory: "@ + path@,
{
    messages::joined("not a directory: ", path)
}

// ---- laws of the course -------------------------------------------------------------

/// An answer: whether what was asked for worked, and when it came.
pub struct Answer {
    pub ok: bool,
    pub now: i64,
}

/// The last step of a session that got `answers`.
pub open spec fn run(first: SessionStepView, answers: Seq<Answer>) -> SessionStepView
    decreases answers.len(),
{
    if answers.len() == 0 {
        first
    } else {
        next(run(first, answers.drop_last()).state, answers.last().ok, answers.last().now)
    }
}

/// The session has asked for something in `phase` at some step.
pub open spec fn asked(first: SessionStepView, answers: Seq<Answer>, phase: SessionPhase) -> bool
    decreases answers.len(),
{
    ||| run(first, answers).state.phase == phase
    ||| answers.len() > 0 && asked(first, answers.drop_last(), phase)
}

/// What was asked for in `phase` has worked at some step.
pub open spec fn worked(first: SessionStepView, answers: Seq<Answer>, phase: SessionPhase) -> bool
    decreases answers.len(),
{
    answers.len() > 0 && {
        ||| run(first, answers.drop_last()).state.phase == phase && answers.last().ok
        ||| worked(first, answers.drop_last(), phase)
    }
}

/// The action is what a session in `phase` asks for.
pub open spec fn asks(phase: SessionPhase, action: SessionAction) -> bool {
    match phase {
        SessionPhase::Opening => action is OpenSession,
        SessionPhase::LoggingIn => action is LogIn,
        SessionPhase::Fetching => action is FetchParser,
        SessionPhase::Locating => action is LocateHarness,
        SessionPhase::Starting => action is StartParser,
        SessionPhase::Clearing => action is ClearParser,
        SessionPhase::Creating => action is CreateReport,
        SessionPhase::SettingStart => action is SetStartTime,
        SessionPhase::Tailing => action is Tail,
        SessionPhase::Closing => action is CloseParser,
        SessionPhase::Terminating => action is TerminateReport,
        SessionPhase::Over => action is Fail || action is Done,
    }
}

/// In every phase, a session asks for what belongs to it.
pub proof fn phases_have_their_actions(include_entire_file: bool, s: Session, ok: bool, now: i64)
    ensures
        asks(begin(include_entire_file).state.phase, begin(include_entire_file).action),
        asks(next(s, ok, now).state.phase, next(s, ok, now).action),
{
}

proof fn lemma_run(include_entire_file: bool, answers: Seq<Answer>)
    ensures
        ({
            let first = begin(include_entire_file);
            let last = run(first, answers);
            let s = last.state;
            let started = worked(first, answers, SessionPhase::Starting);
            let closed = asked(first, answers, SessionPhase::Closing);
            &&& s.include_entire_file == include_entire_file
            &&& asks(s.phase, last.action)
            &&& s.report == worked(first, answers, SessionPhase::Creating)
            &&& s.phase != SessionPhase::Over ==> started == (s.phase == SessionPhase::Clearing
                || s.phase == SessionPhase::Creating || s.phase == SessionPhase::SettingStart
                || s.phase == SessionPhase::Tailing || s.phase == SessionPhase::Closing
                || s.phase == SessionPhase::Terminating)
            &&& s.report ==> started
            &&& s.phase == SessionPhase::Closing && !s.failed ==> s.report
            &&& last.action matches SessionAction::Done { report } ==> report && s.report
            &&& s.phase == SessionPhase::SettingStart || s.phase == SessionPhase::Tailing
                || s.phase == SessionPhase::Terminating ==> s.report
            &&& s.phase == SessionPhase::Creating || s.phase == SessionPhase::Clearing || s.phase
                == SessionPhase::Starting || s.phase == SessionPhase::Locating || s.phase
                == SessionPhase::Fetching || s.phase == SessionPhase::LoggingIn || s.phase
                == SessionPhase::Opening ==> !s.report
            &&& s.phase == SessionPhase::Closing || s.phase == SessionPhase::Terminating
                ==> closed
            &&& s.phase == SessionPhase::Terminating ==> asked(
                first,
                answers,
                SessionPhase::Terminating,
            )
            &&& s.phase == SessionPhase::Over ==> (started ==> closed) && (s.report ==> asked(
                first,
                answers,
                SessionPhase::Terminating,
            ))
        }),
    decreases answers.len(),
{
    if answers.len() > 0 {
        lemma_run(include_entire_file, answers.drop_last());
    }
}

/// Once the parser runs, a session does not end without closing it, and a report
/// that was created is terminated, even where the setup fails partway.
pub proof fn nothing_is_left_running(include_entire_file: bool, answers: Seq<Answer>)
    ensures
        ({
            let first = begin(include_entire_file);
            let over = run(first, answers).state.phase == SessionPhase::Over;
            &&& over && worked(first, answers, SessionPhase::Starting) ==> asked(
                first,
                answers,
                SessionPhase::Closing,
            )
            &&& over && worked(first, answers, SessionPhase::Creating) ==> asked(
                first,
                answers,
                SessionPhase::Terminating,
            )
        }),
{
    lemma_run(include_entire_file, answers);
}

/// A report is terminated only where one was created, and a session ends well only
/// then; the state tells whether it was.
pub proof fn only_a_created_report_is_terminated(include_entire_file: bool, answers: Seq<Answer>)
    ensures
        ({
            let first = begin(include_entire_file);
            let last = run(first, answers);
            let created = worked(first, answers, SessionPhase::Creating);
            &&& last.state.report == created
            &&& last.action is TerminateReport ==> created
            &&& last.action matches SessionAction::Done { report } ==> report && created
        }),
{
    lemma_run(include_entire_file, answers);
}

/// The fights before the start of the report are left out exactly where the whole
/// file is not asked for: the log is tailed only behind that.
pub proof fn earlier_fights_are_left_out(s: Session, now: i64, later: i64)
    requires
        s.phase == SessionPhase::Creating,
    ensures
        next(s, true, now).action == (if s.include_entire_file {
            SessionAction::Tail { start_ms: s.start_ms }
        } else {
            SessionAction::SetStartTime { start_ms: s.start_ms }
        }),
        next(next(s, true, now).state, true, later).action == (if s.include_entire_file {
            SessionAction::CloseParser
        } else {
            SessionAction::Tail { start_ms: s.start_ms }
        }),
{
}

/// The report that a run creates, as the action says.
pub open spec fn created_at(
    first: SessionStepView,
    answers: Seq<Answer>,
    name: &'static str,
    start_time: i64,
    end_time: i64,
) -> bool
    decreases answers.len(),
{
    ||| run(first, answers).action == (SessionAction::CreateReport { name, start_time, end_time })
    ||| answers.len() > 0 && created_at(first, answers.drop_last(), name, start_time, end_time)
}

proof fn lemma_created_at(
    include_entire_file: bool,
    answers: Seq<Answer>,
    name: &'static str,
    start_time: i64,
    end_time: i64,
)
    ensures
        ({
            let first = begin(include_entire_file);
            let last = run(first, answers);
            let s = last.state;
            &&& created_at(first, answers, name, start_time, end_time) ==> {
                &&& name == LIVE_REPORT_NAME
                &&& start_time == end_time == s.start_ms
                &&& s.phase == SessionPhase::Creating || s.phase == SessionPhase::SettingStart
                    || s.phase == SessionPhase::Tailing || s.phase == SessionPhase::Closing
                    || s.phase == SessionPhase::Terminating || s.phase == SessionPhase::Over
            }
            &&& s.phase == SessionPhase::Creating || s.phase == SessionPhase::SettingStart || s.phase
                == SessionPhase::Tailing ==> created_at(first, answers, LIVE_REPORT_NAME, s.start_ms, s.start_ms)
            &&& last.action matches SessionAction::SetStartTime { start_ms } ==> start_ms
                == s.start_ms && s.phase == SessionPhase::SettingStart
            &&& last.action matches SessionAction::Tail { start_ms } ==> start_ms == s.start_ms
                && s.phase == SessionPhase::Tailing
        }),
    decreases answers.len(),
{
    if answers.len() > 0 {
        let less = answers.drop_last();
        let before = run(begin(include_entire_file), less).state;
        lemma_created_at(include_entire_file, less, name, start_time, end_time);
        lemma_created_at(
            include_entire_file,
            less,
            LIVE_REPORT_NAME,
            before.start_ms,
            before.start_ms,
        );
    }
}

/// A report starts and ends at one time. Where the fights before its start are left
/// out, the parser gets that very time, and the journal has it, too.
pub proof fn the_parser_gets_the_start_of_the_report(
    include_entire_file: bool,
    answers: Seq<Answer>,
    name: &'static str,
    start_time: i64,
    end_time: i64,
)
    ensures
        ({
            let first = begin(include_entire_file);
            &&& created_at(first, answers, name, start_time, end_time) ==> start_time == end_time
                && name == LIVE_REPORT_NAME
            &&& run(first, answers).action matches SessionAction::SetStartTime { start_ms } ==> {
                &&& created_at(first, answers, LIVE_REPORT_NAME, start_ms, start_ms)
                &&& created_at(first, answers, name, start_time, end_time) ==> start_time
                    == start_ms && end_time == start_ms
            }
            &&& run(first, answers).action matches SessionAction::Tail { start_ms } ==> {
                &&& created_at(first, answers, LIVE_REPORT_NAME, start_ms, start_ms)
                &&& created_at(first, answers, name, start_time, end_time) ==> start_time
                    == start_ms && end_time == start_ms
            }
        }),
{
    lemma_created_at(include_entire_file, answers, name, start_time, end_time);
}

/// The time of a report is the one at which the parser was ready.
pub proof fn reports_start_when_the_parser_is_ready(s: Session, ok: bool, now: i64)
    ensures
        next(s, ok, now).action matches SessionAction::CreateReport {
            name,
            start_time,
            end_time,
        } ==> {
            &&& s.phase == SessionPhase::Clearing
            &&& ok
            &&& start_time == now
            &&& end_time == now
            &&& next(s, ok, now).state.start_ms == now
        },
{
}

/// A failure of the tail is the failure of the session, and a failure to end the
/// report is none.
pub proof fn tail_failures_are_told(s: Session, tailed: Answer, closed: Answer, terminated: Answer)
    requires
        s.phase == SessionPhase::Tailing,
        s.report,
    ensures
        ({
            let closing = next(s, tailed.ok, tailed.now);
            let ending = next(closing.state, closed.ok, closed.now);
            let ended = next(ending.state, terminated.ok, terminated.now);
            ended.action == (if tailed.ok {
                SessionAction::Done { report: true }
            } else {
                SessionAction::Fail
            })
        }),
{
}

/// The steps of a session up to the creation of its report, in this order; each is told.
pub proof fn setup_runs_in_order(include_entire_file: bool, times: Seq<i64>)
    requires
        times.len() == 6,
    ensures
        ({
            let first = begin(include_entire_file);
            let opened = next(first.state, true, times[0]);
            let logged_in = next(opened.state, true, times[1]);
            let fetched = next(logged_in.state, true, times[2]);
            let located = next(fetched.state, true, times[3]);
            let running = next(located.state, true, times[4]);
            let cleared = next(running.state, true, times[5]);
            &&& first.action == SessionAction::OpenSession
            &&& first.notes == seq![SessionNote::Initializing]
            &&& opened.action == SessionAction::LogIn
            &&& opened.notes == seq![SessionNote::LoggingIn]
            &&& logged_in.action == SessionAction::FetchParser
            &&& logged_in.notes == seq![SessionNote::LoggedIn, SessionNote::FetchingParser]
            &&& fetched.action == SessionAction::LocateHarness
            &&& fetched.notes == Seq::<SessionNote>::empty()
            &&& located.action == SessionAction::StartParser
            &&& located.notes == seq![SessionNote::StartingParser]
            &&& running.action == SessionAction::ClearParser
            &&& running.notes == Seq::<SessionNote>::empty()
            &&& cleared.action == (SessionAction::CreateReport {
                name: "live.log",
                start_time: times[5],
                end_time: times[5],
            })
            &&& cleared.notes == Seq::<SessionNote>::empty()
            &&& cleared.state.start_ms == times[5]
            &&& cleared.state.include_entire_file == include_entire_file
            &&& !cleared.state.report
        }),
{
}

/// Behind the creation of its report, a session tells of it, leaves out what came before
/// where that is asked for, tails the log, closes the parser and terminates the report.
/// It fails exactly where the tail does.
pub proof fn sessions_end_in_order(s: Session, answers: Seq<Answer>)
    requires
        s.phase == SessionPhase::Creating,
        answers.len() == 5,
        answers[0].ok,
        answers[1].ok,
    ensures
        ({
            let created = next(s, true, answers[0].now);
            let tailing = if s.include_entire_file {
                created
            } else {
                next(created.state, true, answers[1].now)
            };
            let closing = next(tailing.state, answers[2].ok, answers[2].now);
            let ending = next(closing.state, answers[3].ok, answers[3].now);
            let ended = next(ending.state, answers[4].ok, answers[4].now);
            &&& created.notes == seq![SessionNote::ReportCreated]
            &&& !s.include_entire_file ==> {
                &&& created.action == (SessionAction::SetStartTime { start_ms: s.start_ms })
                &&& tailing.notes == Seq::<SessionNote>::empty()
            }
            &&& tailing.action == (SessionAction::Tail { start_ms: s.start_ms })
            &&& closing.action == SessionAction::CloseParser
            &&& closing.notes == Seq::<SessionNote>::empty()
            &&& ending.action == SessionAction::TerminateReport
            &&& ending.notes == Seq::<SessionNote>::empty()
            &&& ended.notes == Seq::<SessionNote>::empty()
            &&& ended.action == (if answers[2].ok {
                SessionAction::Done { report: true }
            } else {
                SessionAction::Fail
            })
        }),
{
}

/// A failure before the parser runs ends the session at once. One behind that closes the
/// parser, and terminates the report where there is one, before the session fails.
pub proof fn failures_are_cleaned_up(s: Session, now: i64, closed: Answer, terminated: Answer)
    ensures
        ({
            let failed = next(s, false, now);
            let after = next(failed.state, closed.ok, closed.now);
            let last = next(after.state, terminated.ok, terminated.now);
            let early = s.phase == SessionPhase::Opening || s.phase == SessionPhase::LoggingIn
                || s.phase == SessionPhase::Fetching || s.phase == SessionPhase::Locating
                || s.phase == SessionPhase::Starting;
            let late = s.phase == SessionPhase::Clearing || s.phase == SessionPhase::Creating
                || s.phase == SessionPhase::SettingStart || s.phase == SessionPhase::Tailing;
            &&& early ==> failed.action == SessionAction::Fail && failed.notes == Seq::<
                SessionNote,
            >::empty()
            &&& late ==> {
                &&& failed.action == SessionAction::CloseParser
                &&& failed.notes == Seq::<SessionNote>::empty()
                &&& after.notes == Seq::<SessionNote>::empty()
                &&& !s.report ==> after.action == SessionAction::Fail
                &&& s.report ==> {
                    &&& after.action == SessionAction::TerminateReport
                    &&& last.action == SessionAction::Fail
                    &&& last.notes == Seq::<SessionNote>::empty()
                }
            }
        }),
{
}

/// Only the creation of the report sets the flag of the report, and nothing takes it
/// back.
pub proof fn reports_are_remembered(s: Session, ok: bool, now: i64)
    ensures
        next(s, ok, now).state.report == (s.report || (s.phase == SessionPhase::Creating && ok)),
        next(s, ok, now).state.include_entire_file == s.include_entire_file,
        next(s, ok, now).state.start_ms == (if s.phase == SessionPhase::Clearing && ok {
            now
        } else {
            s.start_ms
        }),
{
}

/// What the user is told of each step.
pub proof fn steps_are_told(detail: Seq<char>)
    ensures
        note_text(SessionNote::Initializing, detail) == "Initializing session..."@,
        note_text(SessionNote::LoggingIn, detail) == "Logging in..."@,
        note_text(SessionNote::LoggedIn, detail) == "Logged in as "@ + detail,
        note_text(SessionNote::FetchingParser, detail) == "Fetching latest parser..."@,
        note_text(SessionNote::StartingParser, detail) == "Starting parser..."@,
        note_text(SessionNote::ReportCreated, detail) == "Live report created: "@ + detail,
{
}

// ---- the running session ------------------------------------------------------------

/// Holds the stop signal of the running session. Each session has a number, so that
/// the slow end of an old one cannot touch the state of a newer one.
pub struct LiveLogState<T> {
    /// The number of the last session.
    pub generation: u64,
    /// The stop signal of the running session.
    pub stop: Option<T>,
}

/// The state behind the start of a session.
pub open spec fn started<T>(s: LiveLogState<T>, stop: T) -> LiveLogState<T> {
    LiveLogState { generation: (s.generation + 1) as u64, stop: Some(stop) }
}

/// The state behind the end of session `generation`.
pub open spec fn finished<T>(s: LiveLogState<T>, generation: u64) -> LiveLogState<T> {
    if s.generation == generation {
        LiveLogState { generation: s.generation, stop: None }
    } else {
        s
    }
}

impl<T> LiveLogState<T> {
    /// No session has run yet.
    pub fn new() -> (r: LiveLogState<T>)
        ensures
            r == (LiveLogState::<T> { generation: 0, stop: None }),
    {
        LiveLogState { generation: 0, stop: None }
    }

    /// Starts a session with a stop signal and returns its number, unless one is
    /// running. `closed` tells whether the session of the signal at hand has ended
    /// without a word.
    pub fn start(&mut self, closed: bool, stop: T) -> (r: Result<u64, &'static str>)
        requires
            old(self).generation < u64::MAX,
        ensures
            match r {
                Ok(generation) => {
                    &&& old(self).stop is None || closed
                    &&& *final(self) == started(*old(self), stop)
                    &&& generation == final(self).generation
                },
                Err(e) => {
                    &&& old(self).stop is Some && !closed
                    &&& *final(self) == *old(self)
                    &&& e@ == "live log already running"@
                },
            },
    {
        if self.stop.is_some() && !closed {
            return Err("live log already running");
        }
        self.generation = self.generation + 1;
        self.stop = Some(stop);
        Ok(self.generation)
    }

    /// Takes note of the end of session `generation`.
    pub fn finish(&mut self, generation: u64)
        ensures
            *final(self) == finished(*old(self), generation),
    {
        if self.generation == generation {
            self.stop = None;
        }
    }

    /// Takes the stop signal of the running session.
    pub fn stop(&mut self) -> (r: Result<T, &'static str>)
        ensures
            final(self).generation == old(self).generation,
            final(self).stop is None,
            match r {
                Ok(stop) => old(self).stop == Some(stop),
                Err(e) => old(self).stop is None && e@ == "no live log running"@,
            },
    {
        match self.stop.take() {
            Some(stop) => Ok(stop),
            None => Err("no live log running"),
        }
    }
}

/// The slow end of an old session does not touch a newer one.
pub proof fn old_sessions_spare_newer_ones<T>(s: LiveLogState<T>, stop: T, old_generation: u64)
    requires
        old_generation <= s.generation < u64::MAX,
    ensures
        finished(started(s, stop), old_generation) == started(s, stop),
{
}

/// A session that starts has the next number, and its own stop signal is at hand.
pub proof fn sessions_are_numbered<T>(s: LiveLogState<T>, stop: T)
    requires
        s.generation < u64::MAX,
    ensures
        started(s, stop).generation == s.generation + 1,
        started(s, stop).stop == Some(stop),
{
}

/// The end of a session changes nothing but the stop signal of that very session.
pub proof fn ends_touch_one_session<T>(s: LiveLogState<T>, generation: u64)
    ensures
        finished(s, generation).generation == s.generation,
        s.generation == generation ==> finished(s, generation).stop is None,
        s.generation != generation ==> finished(s, generation).stop == s.stop,
{
}

/// A session that ends clears its own stop signal.
pub proof fn sessions_clear_their_signal<T>(s: LiveLogState<T>, stop: T)
    requires
        s.generation < u64::MAX,
    ensures
        finished(started(s, stop), started(s, stop).generation).stop is None,
{
}

/// A session that is over stays over, and asks for nothing more.
pub proof fn sessions_stay_over(s: Session, ok: bool, now: i64)
    requires
        s.phase == SessionPhase::Over,
    ensures
        next(s, ok, now).state.phase == SessionPhase::Over,
        next(s, ok, now).action == SessionAction::Fail,
        next(s, ok, now).notes == Seq::<SessionNote>::empty(),
{
}

/// A live report is found under its code.
pub proof fn reports_are_found_under_their_code(code: &str, url: String)
    requires
        call_ensures(report_url, (code,), url),
    ensures
        url@ == "https://www.warcraftlogs.com/reports/"@ + code@,
{
}

/// An account is shown under its name, and as `?` where it has none.
pub proof fn accounts_are_shown_by_name(user_name: Option<String>, shown: String)
    requires
        call_ensures(shown_name, (user_name,), shown),
    ensures
        user_name matches Some(name) ==> shown@ == name@,
        user_name is None ==> shown@ == "?"@,
{
}

/// The setup of a session is told as waiting, with the text of its step.
pub proof fn setups_are_told_as_waiting(note: SessionNote, detail: &str, message: Message)
    requires
        call_ensures(session_message, (note, detail), message),
    ensures
        message@.state == "waiting"@,
        message@.text == note_text(note, detail@),
{
}

/// The error for what is no directory names it.
pub proof fn directories_are_asked_for(path: &str, error: String)
    requires
        call_ensures(not_a_directory, (path,), error),
    ensures
        error@ == "not a directory: "@ + path@,
{
}

} // verus!
