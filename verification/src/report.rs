//! The upload of a finished log as one report: its lines go to the parser in
//! batches, and each batch with fights becomes a segment.

use vstd::prelude::*;
use vstd::string::*;

use crate::fights::FightData;
use crate::messages;
use crate::numbers;
use crate::uploader::MasterIds;

verus! {

broadcast use {vstd::string::group_string_axioms, vstd::seq::group_seq_axioms};

/// How many lines the parser gets at once.
pub const BATCH_SIZE: usize = 100_000;

/// The first percents of the progress are for reading and setting up.
pub const UPLOAD_UI_RESERVED_PCT: u32 = 10;

/// What an upload is started with.
#[derive(Debug)]
pub struct UploadArgs {
    pub log_path: String,
    pub email: String,
    pub password: String,
    pub region: i32,
    pub visibility: i32,
    pub guild_id: Option<i64>,
    /// The site: `warcraft`, `ff`, `eso` and so on; Warcraft Logs where it is empty.
    pub game: String,
}

/// The site to upload to.
pub fn upload_site(args: &UploadArgs) -> (r: String)
    ensures
        r@ == (if args.game@.len() == 0 {
            "warcraft"@
        } else {
            args.game@
        }),
{
    if args.game.as_str().unicode_len() == 0 {
        "warcraft".to_owned()
    } else {
        args.game.clone()
    }
}

/// The name of the report: that of the log's file, where it can be read.
pub fn report_name(file_name: Option<String>) -> (r: String)
    ensures
        r@ == (match file_name {
            Some(name) => name@,
            None => "log.txt"@,
        }),
{
    match file_name {
        Some(name) => name,
        None => "log.txt".to_owned(),
    }
}

// ---- batches ------------------------------------------------------------------------

/// How many batches `total` lines make.
pub open spec fn batch_count(total: nat) -> nat {
    (total + BATCH_SIZE as nat - 1) as nat / BATCH_SIZE as nat
}

/// Where batch `batch`, counted from 0, starts.
pub open spec fn batch_start(batch: nat) -> nat {
    batch * BATCH_SIZE as nat
}

/// Where batch `batch` of `total` lines ends.
pub open spec fn batch_end(batch: nat, total: nat) -> nat {
    if batch_start(batch + 1) <= total {
        batch_start(batch + 1)
    } else {
        total
    }
}

/// The progress once batch `batch`, counted from 0, is at work.
pub open spec fn batch_percent(batch: nat, total: nat) -> u32 {
    (UPLOAD_UI_RESERVED_PCT + 80 * (batch + 1) / batch_count(total)) as u32
}

/// How many batches `total` lines make.
fn count_batches(total: usize) -> (r: usize)
    ensures
        r == batch_count(total as nat),
{
    let whole = total / BATCH_SIZE;
    if total % BATCH_SIZE == 0 {
        whole
    } else {
        whole + 1
    }
}

proof fn lemma_batch(batch: nat, total: nat)
    requires
        batch < batch_count(total),
    ensures
        batch_start(batch) < total,
        batch_start(batch) < batch_end(batch, total) <= total,
        batch_end(batch, total) - batch_start(batch) <= BATCH_SIZE,
        batch + 1 < batch_count(total) ==> batch_end(batch, total) == batch_start(batch + 1),
        batch + 1 == batch_count(total) ==> batch_end(batch, total) == total,
{
}

proof fn lemma_percent(batch: nat, total: nat)
    requires
        batch < batch_count(total),
    ensures
        0 <= 80 * (batch + 1) / batch_count(total) <= 80,
        batch + 1 == batch_count(total) ==> 80 * (batch + 1) / batch_count(total) == 80,
{
    let n = batch_count(total);
    let k = batch + 1;
    assert(0 <= 80 * k / n <= 80) by (nonlinear_arith)
        requires
            0 < k <= n,
    ;
    if k == n {
        assert(80 * k / n == 80) by (nonlinear_arith)
            requires
                k == n,
                n > 0,
        ;
    }
}

/// The batches are the whole log, in order: the first starts at the first line,
/// each starts where the one before ends, and the last ends with the log. None is
/// empty or too large.
pub proof fn batches_are_the_log(batch: nat, total: nat)
    requires
        batch < batch_count(total),
    ensures
        batch_start(0) == 0,
        batch_start(batch) < batch_end(batch, total),
        batch_end(batch, total) - batch_start(batch) <= BATCH_SIZE,
        batch_end(batch, total) == (if batch + 1 == batch_count(total) {
            total
        } else {
            batch_start(batch + 1)
        }),
{
    lemma_batch(batch, total);
}

/// The progress of the batches stays between what is reserved and 90 percent, does
/// not fall, and gets to 90.
pub proof fn progress_rises(batch: nat, later: nat, total: nat)
    requires
        batch <= later < batch_count(total),
    ensures
        UPLOAD_UI_RESERVED_PCT <= batch_percent(batch, total) <= batch_percent(later, total) <= 90,
        later + 1 == batch_count(total) ==> batch_percent(later, total) == 90,
{
    lemma_percent(batch, total);
    lemma_percent(later, total);
    let n = batch_count(total);
    let a = batch + 1;
    let b = later + 1;
    assert(80 * a / n <= 80 * b / n) by (nonlinear_arith)
        requires
            0 < a <= b <= n,
    ;
}

/// The progress once batch `batch`, counted from 0, is at work.
fn percent(batch: usize, total: usize) -> (r: u32)
    requires
        batch < batch_count(total as nat),
    ensures
        r == batch_percent(batch as nat, total as nat),
{
    proof {
        lemma_percent(batch as nat, total as nat);
    }
    let done: u128 = 80 * (batch as u128 + 1);
    UPLOAD_UI_RESERVED_PCT + (done / (count_batches(total) as u128)) as u32
}

// ---- the course of an upload ----------------------------------------------------------

/// What the upload is waiting for.
#[derive(Clone, Copy, PartialEq, Eq, Structural, Debug)]
pub enum ReportPhase {
    /// The lines of the log.
    Reading,
    /// A connection to the site.
    Opening,
    /// The login.
    LoggingIn,
    /// The parser's code.
    Fetching,
    /// The place of the parser's harness.
    Locating,
    /// The parser to run.
    Starting,
    /// The parser to forget everything.
    ClearingState,
    /// The parser to take the date of the log.
    SettingDate,
    /// The parser to read a batch.
    Parsing,
    /// The fights of the batch.
    Collecting,
    /// The site to create the report.
    Creating,
    /// The ids of the parser's master tables.
    CollectingMaster,
    /// The site to take the master tables.
    SettingMaster,
    /// The site to take the segment.
    Adding,
    /// The parser to forget the fights.
    ClearingFights,
    /// The parser to end.
    Closing,
    /// The site to end the report.
    Terminating,
    /// Nothing: the upload is over.
    Over,
}

/// An answer that the upload got.
#[derive(Clone, Copy, PartialEq, Eq, Structural, Debug)]
pub enum ReportEvent {
    /// The log has been read; how many lines it has.
    LinesRead(usize),
    /// What was asked for worked.
    Worked,
    Fights(FightData),
    Master(MasterIds),
    /// The id of the next segment.
    Added(i64),
    /// What was asked for failed.
    Failed,
}

/// What the upload does next.
#[derive(Clone, Copy, PartialEq, Eq, Structural, Debug)]
pub enum ReportAction {
    ReadLog,
    OpenSession,
    LogIn,
    FetchParser,
    LocateHarness,
    StartParser,
    ClearParser,
    /// Hand the parser the date in the name of the log, where it has one.
    SetStartDate,
    /// Have the parser read the lines from `from` to `to`.
    ParseLines { from: usize, to: usize },
    /// Ask the parser for its fights; whether it is to commit the open one.
    CollectFights { push_fight: bool },
    CreateReport { start_time: i64, end_time: i64 },
    CollectMaster,
    SetMaster { segment_id: i64, is_real_time: bool, log_version: i64, game_version: i64 },
    /// Send the fights.
    AddSegment {
        segment_id: i64,
        start_time: i64,
        end_time: i64,
        mythic: i32,
        is_live: bool,
        is_real_time: bool,
        in_progress_count: i64,
    },
    ClearFights,
    CloseParser,
    TerminateReport,
    /// The upload failed with the error at hand.
    Fail,
    /// The upload failed: there is no fight in the log.
    NoFights,
    Done,
}

/// What the upload tells the user. Batches are counted from 1 here.
#[derive(Clone, Copy, PartialEq, Eq, Structural, Debug)]
pub enum ReportNote {
    ReadingLog,
    LinesRead { lines: usize },
    Initializing,
    LoggingIn,
    LoggedIn,
    FetchingParser,
    ParserLoaded,
    StartingParser,
    ParserReady,
    NoFightsYet { batch: usize, batches: usize, pct: u32 },
    ReportCreated { pct: u32 },
    SegmentUploaded { batch: usize, batches: usize, events: i64, pct: u32 },
}

/// The state of the upload.
#[derive(Clone, Copy, PartialEq, Eq, Structural, Debug)]
pub struct Report {
    pub phase: ReportPhase,
    /// How many lines the log has.
    pub total: usize,
    /// The batch at work, counted from 0.
    pub batch: usize,
    /// The report has been created.
    pub created: bool,
    /// The id of the next segment.
    pub segment_id: i64,
    /// The ids of the master tables that the site has.
    pub last_master_ids: Option<MasterIds>,
    /// The fights of the batch.
    pub data: FightData,
    /// The ids of the master tables of the batch.
    pub ids: MasterIds,
}

/// One step of the upload.
pub struct ReportStep {
    pub state: Report,
    pub notes: Vec<ReportNote>,
    pub action: ReportAction,
}

/// One step of the upload as plain values.
pub struct ReportStepView {
    pub state: Report,
    pub notes: Seq<ReportNote>,
    pub action: ReportAction,
}

impl View for ReportStep {
    type V = ReportStepView;

    open spec fn view(&self) -> ReportStepView {
        ReportStepView { state: self.state, notes: self.notes@, action: self.action }
    }
}

/// The batch at work is one of the log's.
pub open spec fn in_range(s: Report) -> bool {
    match s.phase {
        ReportPhase::Parsing | ReportPhase::Collecting | ReportPhase::Creating
        | ReportPhase::CollectingMaster | ReportPhase::SettingMaster | ReportPhase::Adding
        | ReportPhase::ClearingFights => s.batch < batch_count(s.total as nat),
        _ => true,
    }
}

pub open spec fn go(
    s: Report,
    phase: ReportPhase,
    notes: Seq<ReportNote>,
    action: ReportAction,
) -> ReportStepView {
    ReportStepView { state: Report { phase, ..s }, notes, action }
}

/// The state of an upload before its first step.
pub open spec fn blank() -> Report {
    Report {
        phase: ReportPhase::Over,
        total: 0,
        batch: 0,
        created: false,
        segment_id: 1,
        last_master_ids: None,
        data: FightData {
            empty: true,
            sliver: true,
            events: 0,
            first_count: 0,
            start_time: 0,
            end_time: 0,
            mythic: 0,
            log_version: 0,
            game_version: 0,
        },
        ids: MasterIds { actor: 0, ability: 0, tuple: 0, pet: 0 },
    }
}

/// The start of an upload.
pub open spec fn begin() -> ReportStepView {
    go(blank(), ReportPhase::Reading, seq![ReportNote::ReadingLog], ReportAction::ReadLog)
}

/// Batch `batch`, or the end of the log.
pub open spec fn batch(s: Report, batch: nat, notes: Seq<ReportNote>) -> ReportStepView {
    if batch < batch_count(s.total as nat) {
        go(
            Report { batch: batch as usize, ..s },
            ReportPhase::Parsing,
            notes,
            ReportAction::ParseLines {
                from: batch_start(batch) as usize,
                to: batch_end(batch, s.total as nat) as usize,
            },
        )
    } else {
        go(s, ReportPhase::Closing, notes, ReportAction::CloseParser)
    }
}

/// The percent of the batch at work.
pub open spec fn percent_of(s: Report) -> u32 {
    batch_percent(s.batch as nat, s.total as nat)
}

/// The fights of a batch: one without fights is passed over, and the first with
/// fights creates the report.
pub open spec fn collected(s: Report, data: FightData) -> ReportStepView {
    if data.empty {
        batch(
            s,
            s.batch as nat + 1,
            seq![
                ReportNote::NoFightsYet {
                    batch: (s.batch + 1) as usize,
                    batches: batch_count(s.total as nat) as usize,
                    pct: percent_of(s),
                },
            ],
        )
    } else {
        let found = Report { data, ..s };
        if s.created {
            go(
                found,
                ReportPhase::CollectingMaster,
                Seq::empty(),
                ReportAction::CollectMaster,
            )
        } else {
            go(
                found,
                ReportPhase::Creating,
                Seq::empty(),
                ReportAction::CreateReport {
                    start_time: data.start_time,
                    end_time: data.end_time,
                },
            )
        }
    }
}

/// The segment of the batch at work: completed fights of a finished log.
pub open spec fn send(s: Report) -> ReportStepView {
    go(
        s,
        ReportPhase::Adding,
        Seq::empty(),
        ReportAction::AddSegment {
            segment_id: s.segment_id,
            start_time: s.data.start_time,
            end_time: s.data.end_time,
            mythic: s.data.mythic,
            is_live: false,
            is_real_time: false,
            in_progress_count: 0,
        },
    )
}

/// The master tables go before the segment where the site does not have them yet.
pub open spec fn mastered(s: Report, ids: MasterIds) -> ReportStepView {
    let known = Report { ids, ..s };
    if s.last_master_ids == Some(ids) {
        send(known)
    } else {
        go(
            known,
            ReportPhase::SettingMaster,
            Seq::empty(),
            ReportAction::SetMaster {
                segment_id: s.segment_id,
                is_real_time: false,
                log_version: s.data.log_version,
                game_version: s.data.game_version,
            },
        )
    }
}

/// The id behind a segment: the one that the site names, or the next number.
pub open spec fn following(segment_id: i64, next: i64) -> i64 {
    if next > 0 {
        next
    } else {
        segment_id.wrapping_add(1)
    }
}

/// The batch at work is done.
pub open spec fn uploaded(s: Report) -> ReportStepView {
    batch(
        s,
        s.batch as nat + 1,
        seq![
            ReportNote::SegmentUploaded {
                batch: (s.batch + 1) as usize,
                batches: batch_count(s.total as nat) as usize,
                events: s.data.events,
                pct: percent_of(s),
            },
        ],
    )
}

/// What follows in state `s` on `event`.
pub open spec fn next(s: Report, event: ReportEvent) -> ReportStepView {
    match (s.phase, event) {
        (ReportPhase::Reading, ReportEvent::LinesRead(lines)) => go(
            Report { total: lines, ..s },
            ReportPhase::Opening,
            seq![ReportNote::LinesRead { lines }, ReportNote::Initializing],
            ReportAction::OpenSession,
        ),
        (ReportPhase::Opening, ReportEvent::Worked) => go(
            s,
            ReportPhase::LoggingIn,
            seq![ReportNote::LoggingIn],
            ReportAction::LogIn,
        ),
        (ReportPhase::LoggingIn, ReportEvent::Worked) => go(
            s,
            ReportPhase::Fetching,
            seq![ReportNote::LoggedIn, ReportNote::FetchingParser],
            ReportAction::FetchParser,
        ),
        (ReportPhase::Fetching, ReportEvent::Worked) => go(
            s,
            ReportPhase::Locating,
            seq![ReportNote::ParserLoaded],
            ReportAction::LocateHarness,
        ),
        (ReportPhase::Locating, ReportEvent::Worked) => go(
            s,
            ReportPhase::Starting,
            seq![ReportNote::StartingParser],
            ReportAction::StartParser,
        ),
        (ReportPhase::Starting, ReportEvent::Worked) => go(
            s,
            ReportPhase::ClearingState,
            Seq::empty(),
            ReportAction::ClearParser,
        ),
        (ReportPhase::ClearingState, ReportEvent::Worked) => go(
            s,
            ReportPhase::SettingDate,
            Seq::empty(),
            ReportAction::SetStartDate,
        ),
        (ReportPhase::SettingDate, ReportEvent::Worked) => batch(
            s,
            0,
            seq![ReportNote::ParserReady],
        ),
        (ReportPhase::Parsing, ReportEvent::Worked) => go(
            s,
            ReportPhase::Collecting,
            Seq::empty(),
            ReportAction::CollectFights { push_fight: true },
        ),
        (ReportPhase::Collecting, ReportEvent::Fights(data)) => collected(s, data),
        (ReportPhase::Creating, ReportEvent::Worked) => go(
            Report { created: true, ..s },
            ReportPhase::CollectingMaster,
            seq![ReportNote::ReportCreated { pct: percent_of(s) }],
            ReportAction::CollectMaster,
        ),
        (ReportPhase::CollectingMaster, ReportEvent::Master(ids)) => mastered(s, ids),
        (ReportPhase::SettingMaster, ReportEvent::Worked) => send(
            Report { last_master_ids: Some(s.ids), ..s },
        ),
        (ReportPhase::Adding, ReportEvent::Added(id)) => go(
            Report { segment_id: following(s.segment_id, id), ..s },
            ReportPhase::ClearingFights,
            Seq::empty(),
            ReportAction::ClearFights,
        ),
        (ReportPhase::ClearingFights, ReportEvent::Worked) => uploaded(s),
        (ReportPhase::Closing, _) if s.created => go(
            s,
            ReportPhase::Terminating,
            Seq::empty(),
            ReportAction::TerminateReport,
        ),
        (ReportPhase::Closing, _) => go(
            s,
            ReportPhase::Over,
            Seq::empty(),
            ReportAction::NoFights,
        ),
        (ReportPhase::Terminating, ReportEvent::Worked) => go(
            s,
            ReportPhase::Over,
            Seq::empty(),
            ReportAction::Done,
        ),
        _ => go(s, ReportPhase::Over, Seq::empty(), ReportAction::Fail),
    }
}

fn step(
    s: Report,
    phase: ReportPhase,
    notes: Vec<ReportNote>,
    action: ReportAction,
) -> (r: ReportStep)
    ensures
        r@ == go(s, phase, notes@, action),
{
    ReportStep { state: Report { phase, ..s }, notes, action }
}

fn one(note: ReportNote) -> (r: Vec<ReportNote>)
    ensures
        r@ == seq![note],
{
    let mut notes: Vec<ReportNote> = Vec::new();
    notes.push(note);
    assert(notes@ =~= seq![note]);
    notes
}

fn two(first: ReportNote, second: ReportNote) -> (r: Vec<ReportNote>)
    ensures
        r@ == seq![first, second],
{
    let mut notes = one(first);
    notes.push(second);
    assert(notes@ =~= seq![first, second]);
    notes
}

impl Report {
    /// Starts an upload.
    pub fn begin() -> (r: ReportStep)
        ensures
            r@ == begin(),
    {
        let s = Report {
            phase: ReportPhase::Over,
            total: 0,
            batch: 0,
            created: false,
            segment_id: 1,
            last_master_ids: None,
            data: FightData {
                empty: true,
                sliver: true,
                events: 0,
                first_count: 0,
                start_time: 0,
                end_time: 0,
                mythic: 0,
                log_version: 0,
                game_version: 0,
            },
            ids: MasterIds { actor: 0, ability: 0, tuple: 0, pet: 0 },
        };
        step(s, ReportPhase::Reading, one(ReportNote::ReadingLog), ReportAction::ReadLog)
    }

    fn batch(self, batch: usize, notes: Vec<ReportNote>) -> (r: ReportStep)
        requires
            batch <= batch_count(self.total as nat),
        ensures
            r@ == self::batch(self, batch as nat, notes@),
    {
        if batch < count_batches(self.total) {
            proof {
                lemma_batch(batch as nat, self.total as nat);
            }
            let from = batch * BATCH_SIZE;
            let to = if self.total - from >= BATCH_SIZE {
                from + BATCH_SIZE
            } else {
                self.total
            };
            let s = Report { batch, ..self };
            step(s, ReportPhase::Parsing, notes, ReportAction::ParseLines { from, to })
        } else {
            step(self, ReportPhase::Closing, notes, ReportAction::CloseParser)
        }
    }

    fn collected(self, data: FightData) -> (r: ReportStep)
        requires
            self.batch < batch_count(self.total as nat),
        ensures
            r@ == collected(self, data),
    {
        if data.empty {
            let batches = count_batches(self.total);
            let number = self.batch + 1;
            let pct = percent(self.batch, self.total);
            let note = ReportNote::NoFightsYet { batch: number, batches, pct };
            self.batch(number, one(note))
        } else {
            let found = Report { data, ..self };
            if self.created {
                step(
                    found,
                    ReportPhase::CollectingMaster,
                    Vec::new(),
                    ReportAction::CollectMaster,
                )
            } else {
                let action = ReportAction::CreateReport {
                    start_time: data.start_time,
                    end_time: data.end_time,
                };
                step(found, ReportPhase::Creating, Vec::new(), action)
            }
        }
    }

    fn send(self) -> (r: ReportStep)
        ensures
            r@ == send(self),
    {
        let action = ReportAction::AddSegment {
            segment_id: self.segment_id,
            start_time: self.data.start_time,
            end_time: self.data.end_time,
            mythic: self.data.mythic,
            is_live: false,
            is_real_time: false,
            in_progress_count: 0,
        };
        step(self, ReportPhase::Adding, Vec::new(), action)
    }

    fn mastered(self, ids: MasterIds) -> (r: ReportStep)
        ensures
            r@ == mastered(self, ids),
    {
        let known = Report { ids, ..self };
        let has = match self.last_master_ids {
            Some(last) => last == ids,
            None => false,
        };
        if has {
            known.send()
        } else {
            let action = ReportAction::SetMaster {
                segment_id: self.segment_id,
                is_real_time: false,
                log_version: self.data.log_version,
                game_version: self.data.game_version,
            };
            step(known, ReportPhase::SettingMaster, Vec::new(), action)
        }
    }

    fn uploaded(self) -> (r: ReportStep)
        requires
            self.batch < batch_count(self.total as nat),
        ensures
            r@ == uploaded(self),
    {
        let batches = count_batches(self.total);
        let number = self.batch + 1;
        let note = ReportNote::SegmentUploaded {
            batch: number,
            batches,
            events: self.data.events,
            pct: percent(self.batch, self.total),
        };
        self.batch(number, one(note))
    }

    /// What follows on the answer `event`. An answer that the upload does not wait
    /// for ends it as a failure does.
    pub fn step(self, event: ReportEvent) -> (r: ReportStep)
        requires
            in_range(self),
        ensures
            r@ == next(self, event),
            in_range(r.state),
    {
        let none: Vec<ReportNote> = Vec::new();
        match (self.phase, event) {
            (ReportPhase::Reading, ReportEvent::LinesRead(lines)) => step(
                Report { total: lines, ..self },
                ReportPhase::Opening,
                two(ReportNote::LinesRead { lines }, ReportNote::Initializing),
                ReportAction::OpenSession,
            ),
            (ReportPhase::Opening, ReportEvent::Worked) => step(
                self,
                ReportPhase::LoggingIn,
                one(ReportNote::LoggingIn),
                ReportAction::LogIn,
            ),
            (ReportPhase::LoggingIn, ReportEvent::Worked) => step(
                self,
                ReportPhase::Fetching,
                two(ReportNote::LoggedIn, ReportNote::FetchingParser),
                ReportAction::FetchParser,
            ),
            (ReportPhase::Fetching, ReportEvent::Worked) => step(
                self,
                ReportPhase::Locating,
                one(ReportNote::ParserLoaded),
                ReportAction::LocateHarness,
            ),
            (ReportPhase::Locating, ReportEvent::Worked) => step(
                self,
                ReportPhase::Starting,
                one(ReportNote::StartingParser),
                ReportAction::StartParser,
            ),
            (ReportPhase::Starting, ReportEvent::Worked) => step(
                self,
                ReportPhase::ClearingState,
                none,
                ReportAction::ClearParser,
            ),
            (ReportPhase::ClearingState, ReportEvent::Worked) => step(
                self,
                ReportPhase::SettingDate,
                none,
                ReportAction::SetStartDate,
            ),
            (ReportPhase::SettingDate, ReportEvent::Worked) => self.batch(
                0,
                one(ReportNote::ParserReady),
            ),
            (ReportPhase::Parsing, ReportEvent::Worked) => step(
                self,
                ReportPhase::Collecting,
                none,
                ReportAction::CollectFights { push_fight: true },
            ),
            (ReportPhase::Collecting, ReportEvent::Fights(data)) => self.collected(data),
            (ReportPhase::Creating, ReportEvent::Worked) => step(
                Report { created: true, ..self },
                ReportPhase::CollectingMaster,
                one(ReportNote::ReportCreated { pct: percent(self.batch, self.total) }),
                ReportAction::CollectMaster,
            ),
            (ReportPhase::CollectingMaster, ReportEvent::Master(ids)) => self.mastered(ids),
            (ReportPhase::SettingMaster, ReportEvent::Worked) => {
                let s = Report { last_master_ids: Some(self.ids), ..self };
                s.send()
            },
            (ReportPhase::Adding, ReportEvent::Added(id)) => {
                let segment_id = if id > 0 {
                    id
                } else {
                    self.segment_id.wrapping_add(1)
                };
                step(
                    Report { segment_id, ..self },
                    ReportPhase::ClearingFights,
                    none,
                    ReportAction::ClearFights,
                )
            },
            (ReportPhase::ClearingFights, ReportEvent::Worked) => self.uploaded(),
            (ReportPhase::Closing, _) if self.created => step(
                self,
                ReportPhase::Terminating,
                none,
                ReportAction::TerminateReport,
            ),
            (ReportPhase::Closing, _) => step(
                self,
                ReportPhase::Over,
                none,
                ReportAction::NoFights,
            ),
            (ReportPhase::Terminating, ReportEvent::Worked) => step(
                self,
                ReportPhase::Over,
                none,
                ReportAction::Done,
            ),
            _ => step(self, ReportPhase::Over, none, ReportAction::Fail),
        }
    }
}

// ---- what the user is told -------------------------------------------------------------

/// A line for the user: the step of the upload, what is going on, and how far the
/// upload is.
pub struct Progress {
    pub step: String,
    pub text: String,
    pub pct: u32,
}

/// A line for the user as plain values.
pub struct ProgressView {
    pub step: Seq<char>,
    pub text: Seq<char>,
    pub pct: u32,
}

impl View for Progress {
    type V = ProgressView;

    open spec fn view(&self) -> ProgressView {
        ProgressView { step: self.step@, text: self.text@, pct: self.pct }
    }
}

/// `number/count` in decimal digits.
pub open spec fn ratio(number: usize, count: usize) -> Seq<char> {
    numbers::decimal(number as nat) + "/"@ + numbers::decimal(count as nat)
}

/// A number in decimal digits, in groups of three.
pub open spec fn grouped_number(n: usize) -> Seq<char> {
    numbers::grouped(numbers::decimal(n as nat))
}

/// What the user is told of a note. `detail` is the user's name behind a login, the
/// version of a loaded parser, and the code of a created report.
pub open spec fn note_text(note: ReportNote, detail: Seq<char>) -> Seq<char> {
    match note {
        ReportNote::ReadingLog => "Reading log file..."@,
        ReportNote::LinesRead { lines } => "Read "@ + grouped_number(lines) + " lines"@,
        ReportNote::Initializing => "Initializing session..."@,
        ReportNote::LoggingIn => "Logging in..."@,
        ReportNote::LoggedIn => "Logged in as "@ + detail,
        ReportNote::FetchingParser => "Fetching latest parser..."@,
        ReportNote::ParserLoaded => "Parser v"@ + detail + " loaded"@,
        ReportNote::StartingParser => "Starting parser..."@,
        ReportNote::ParserReady => "Parser ready"@,
        ReportNote::NoFightsYet { batch, batches, .. } => "Batch "@ + ratio(batch, batches)
            + " — no fights yet"@,
        ReportNote::ReportCreated { .. } => "Report created: "@ + detail,
        ReportNote::SegmentUploaded { batch, batches, events, .. } => "Segment "@ + ratio(
            batch,
            batches,
        ) + " — "@ + grouped_number(events as usize) + " events"@,
    }
}

/// The step of the upload that a note belongs to.
pub open spec fn note_step(note: ReportNote) -> Seq<char> {
    match note {
        ReportNote::ReadingLog | ReportNote::LinesRead { .. } => "read"@,
        ReportNote::Initializing => "session"@,
        ReportNote::LoggingIn | ReportNote::LoggedIn => "login"@,
        ReportNote::FetchingParser | ReportNote::ParserLoaded => "fetch-parser"@,
        ReportNote::StartingParser | ReportNote::ParserReady => "parser"@,
        ReportNote::NoFightsYet { .. } => "parse"@,
        ReportNote::ReportCreated { .. } => "report"@,
        ReportNote::SegmentUploaded { .. } => "upload"@,
    }
}

/// How far the upload is, in percent.
pub open spec fn note_percent(note: ReportNote) -> u32 {
    match note {
        ReportNote::ReadingLog => 1,
        ReportNote::LinesRead { .. } => 2,
        ReportNote::Initializing => 3,
        ReportNote::LoggingIn => 4,
        ReportNote::LoggedIn => 5,
        ReportNote::FetchingParser => 6,
        ReportNote::ParserLoaded => 7,
        ReportNote::StartingParser => 8,
        ReportNote::ParserReady => 9,
        ReportNote::NoFightsYet { pct, .. } => pct,
        ReportNote::ReportCreated { pct } => pct,
        ReportNote::SegmentUploaded { pct, .. } => pct,
    }
}

fn push_ratio(out: &mut String, number: usize, count: usize)
    ensures
        final(out)@ == old(out)@ + ratio(number, count),
{
    numbers::push_decimal(out, number as u128);
    out.append("/");
    numbers::push_decimal(out, count as u128);
    assert(out@ =~= old(out)@ + ratio(number, count));
}

fn text_of(note: ReportNote, detail: &str) -> (r: String)
    ensures
        r@ == note_text(note, detail@),
{
    match note {
        ReportNote::ReadingLog => "Reading log file...".to_owned(),
        ReportNote::LinesRead { lines } => {
            let mut out = "Read ".to_owned();
            out.append(numbers::format_with_commas(lines).as_str());
            out.append(" lines");
            out
        },
        ReportNote::Initializing => "Initializing session...".to_owned(),
        ReportNote::LoggingIn => "Logging in...".to_owned(),
        ReportNote::LoggedIn => messages::joined("Logged in as ", detail),
        ReportNote::FetchingParser => "Fetching latest parser...".to_owned(),
        ReportNote::ParserLoaded => {
            let mut out = messages::joined("Parser v", detail);
            out.append(" loaded");
            out
        },
        ReportNote::StartingParser => "Starting parser...".to_owned(),
        ReportNote::ParserReady => "Parser ready".to_owned(),
        ReportNote::NoFightsYet { batch, batches, .. } => {
            let mut out = "Batch ".to_owned();
            push_ratio(&mut out, batch, batches);
            out.append(" — no fights yet");
            out
        },
        ReportNote::ReportCreated { .. } => messages::joined("Report created: ", detail),
        ReportNote::SegmentUploaded { batch, batches, events, .. } => {
            let mut out = "Segment ".to_owned();
            push_ratio(&mut out, batch, batches);
            out.append(" — ");
            out.append(numbers::format_with_commas(events as usize).as_str());
            out.append(" events");
            out
        },
    }
}

fn step_of(note: ReportNote) -> (r: &'static str)
    ensures
        r@ == note_step(note),
{
    match note {
        ReportNote::ReadingLog | ReportNote::LinesRead { .. } => "read",
        ReportNote::Initializing => "session",
        ReportNote::LoggingIn | ReportNote::LoggedIn => "login",
        ReportNote::FetchingParser | ReportNote::ParserLoaded => "fetch-parser",
        ReportNote::StartingParser | ReportNote::ParserReady => "parser",
        ReportNote::NoFightsYet { .. } => "parse",
        ReportNote::ReportCreated { .. } => "report",
        ReportNote::SegmentUploaded { .. } => "upload",
    }
}

fn pct_of(note: ReportNote) -> (r: u32)
    ensures
        r == note_percent(note),
{
    match note {
        ReportNote::ReadingLog => 1,
        ReportNote::LinesRead { .. } => 2,
        ReportNote::Initializing => 3,
        ReportNote::LoggingIn => 4,
        ReportNote::LoggedIn => 5,
        ReportNote::FetchingParser => 6,
        ReportNote::ParserLoaded => 7,
        ReportNote::StartingParser => 8,
        ReportNote::ParserReady => 9,
        ReportNote::NoFightsYet { pct, .. } => pct,
        ReportNote::ReportCreated { pct } => pct,
        ReportNote::SegmentUploaded { pct, .. } => pct,
    }
}

/// What the user is told of a note. `detail` is the user's name behind a login, the
/// version of a loaded parser, and the code of a created report.
pub fn progress(note: ReportNote, detail: &str) -> (r: Progress)
    ensures
        r@ == (ProgressView {
            step: note_step(note),
            text: note_text(note, detail@),
            pct: note_percent(note),
        }),
{
    Progress { step: step_of(note).to_owned(), text: text_of(note, detail), pct: pct_of(note) }
}

/// The error for a log without a fight.
pub fn no_fights_found() -> (r: String)
    ensures
        r@ == "No fights found in log file."@,
{
    "No fights found in log file.".to_owned()
}

} // verus!
