//! The upload of one part of a live log, and its retries.
//!
//! An upload talks to the parser and to the site in turn. Its decisions are a
//! state machine, as those of the tail are.

use vstd::prelude::*;

use crate::fights::FightData;

verus! {

broadcast use vstd::seq::group_seq_axioms;

/// The last ids of the parser's master tables: actors, abilities, tuples and pets.
#[derive(Clone, Copy, PartialEq, Eq, Structural, Debug)]
pub struct MasterIds {
    pub actor: i64,
    pub ability: i64,
    pub tuple: i64,
    pub pet: i64,
}

/// What uploads carry from one to the next.
#[derive(Clone, Copy, PartialEq, Eq, Structural, Debug)]
pub struct Uploader {
    /// Fights in progress are uploaded, too.
    pub real_time: bool,
    /// The id of the next segment.
    pub segment_id: i64,
    /// The ids of the master tables that the site has.
    pub last_master_ids: Option<MasterIds>,
    /// How many segments have been uploaded.
    pub segments: u64,
    /// A fight is known to be in progress.
    pub in_progress: bool,
}

impl Uploader {
    /// Before the first upload.
    pub fn new(real_time: bool) -> (r: Uploader)
        ensures
            r == (Uploader {
                real_time,
                segment_id: 1,
                last_master_ids: None,
                segments: 0,
                in_progress: false,
            }),
    {
        Uploader {
            real_time,
            segment_id: 1,
            last_master_ids: None,
            segments: 0,
            in_progress: false,
        }
    }
}

/// What an upload is waiting for.
#[derive(Clone, Copy, PartialEq, Eq, Structural, Debug)]
pub enum UploadPhase {
    /// The parser to read the lines.
    Parsing,
    /// The fights that the parser has committed.
    Collecting,
    /// The parser to forget a sliver.
    ClearingSliver,
    /// The fight in progress.
    CollectingOpen,
    /// The ids of the parser's master tables.
    CollectingMaster,
    /// The site to take the master tables.
    SettingMaster,
    /// The site to take the segment.
    Adding,
    /// The parser to forget what was uploaded.
    Clearing,
    /// Nothing: the upload is over.
    Over,
}

/// An answer that an upload got.
#[derive(Clone, Copy, PartialEq, Eq, Structural, Debug)]
pub enum UploadEvent {
    Parsed,
    Fights(FightData),
    OpenFight(FightData),
    Master(MasterIds),
    MasterSet,
    /// The id of the next segment; 0 for a segment that stays in place.
    Added(i64),
    Cleared,
    /// What was asked for failed.
    Failed,
}

/// What an upload does next.
#[derive(Clone, Copy, PartialEq, Eq, Structural, Debug)]
pub enum UploadAction {
    /// Have the parser read the lines.
    ParseLines,
    /// Ask the parser for its committed fights.
    CollectFights { push_fight: bool },
    /// Ask the parser for the fight in progress.
    CollectOpenFight,
    /// Ask the parser for its master tables.
    CollectMaster,
    /// Send the master tables.
    SetMaster { segment_id: i64, is_real_time: bool, log_version: i64, game_version: i64 },
    /// Send the fights.
    AddSegment {
        segment_id: i64,
        start_time: i64,
        end_time: i64,
        mythic: i32,
        is_live: bool,
        is_real_time: bool,
        in_progress_count: i64,
    },
    /// Have the parser forget its committed fights.
    ClearFights,
    /// The upload is over; whether a segment was uploaded.
    Done { uploaded: bool },
    /// The upload failed with the error at hand.
    Fail,
}

/// The numbers of an uploaded segment.
#[derive(Clone, Copy, PartialEq, Eq, Structural, Debug)]
pub struct SegmentNumbers {
    pub segment_id: i64,
    pub next_segment_id: i64,
    pub start_time: i64,
    pub end_time: i64,
    pub mythic: i32,
    pub is_real_time: bool,
    pub in_progress_count: i64,
    pub push_fight: bool,
}

/// What an upload tells the user and the journal.
#[derive(Clone, Copy, PartialEq, Eq, Structural, Debug)]
pub enum UploadNote {
    SliverDropped,
    FightInProgress,
    MasterUploaded { segment_id: i64, is_real_time: bool, ids: MasterIds },
    SegmentUploaded(SegmentNumbers),
    /// A segment is final; how many there are.
    Counted { segments: u64 },
}

/// The state of an upload.
#[derive(Clone, Copy, PartialEq, Eq, Structural, Debug)]
pub struct UploadPart {
    pub phase: UploadPhase,
    pub uploader: Uploader,
    /// The parser is to commit the open fight.
    pub push_fight: bool,
    /// Committed slivers are not uploaded.
    pub drop_slivers: bool,
    /// What is uploaded.
    pub data: FightData,
    /// What is uploaded is a fight in progress.
    pub is_real_time: bool,
    /// How many events that fight has so far.
    pub in_progress_count: i64,
    /// The ids of the master tables of what is uploaded.
    pub ids: MasterIds,
}

/// One step of an upload.
pub struct UploadStep {
    pub state: UploadPart,
    pub notes: Vec<UploadNote>,
    pub action: UploadAction,
}

/// One step of an upload as plain values.
pub struct UploadStepView {
    pub state: UploadPart,
    pub notes: Seq<UploadNote>,
    pub action: UploadAction,
}

impl View for UploadStep {
    type V = UploadStepView;

    open spec fn view(&self) -> UploadStepView {
        UploadStepView { state: self.state, notes: self.notes@, action: self.action }
    }
}

// ---- rules ------------------------------------------------------------------------

pub open spec fn go(
    s: UploadPart,
    phase: UploadPhase,
    notes: Seq<UploadNote>,
    action: UploadAction,
) -> UploadStepView {
    UploadStepView { state: UploadPart { phase, ..s }, notes, action }
}

/// An upload as it starts.
pub open spec fn blank(uploader: Uploader, push_fight: bool, drop_slivers: bool) -> UploadPart {
    UploadPart {
        phase: UploadPhase::Over,
        uploader,
        push_fight,
        drop_slivers,
        data: FightData {
            empty: true,
            sliver: true,
            events: 0,
            first_count: 0,
            start_time: 0,
            end_time: 0,
            mythic: 0,
            log_version: 0,
            game_version: 0,
        },
        is_real_time: false,
        in_progress_count: 0,
        ids: MasterIds { actor: 0, ability: 0, tuple: 0, pet: 0 },
    }
}

/// An upload of lines, or of nothing new where there are none.
pub open spec fn begin(s: UploadPart, no_lines: bool) -> UploadStepView {
    if no_lines {
        collect(s)
    } else {
        go(s, UploadPhase::Parsing, Seq::empty(), UploadAction::ParseLines)
    }
}

pub open spec fn collect(s: UploadPart) -> UploadStepView {
    go(
        s,
        UploadPhase::Collecting,
        Seq::empty(),
        UploadAction::CollectFights { push_fight: s.push_fight },
    )
}

/// The parser's committed fights. A forced sliver is dropped, and the parser forgets
/// it so that it is not sent later; where there are no fights, the one in progress
/// is looked at.
pub open spec fn collected(s: UploadPart, data: FightData) -> UploadStepView {
    if s.push_fight && s.drop_slivers && !data.empty && data.sliver {
        go(
            s,
            UploadPhase::ClearingSliver,
            seq![UploadNote::SliverDropped],
            UploadAction::ClearFights,
        )
    } else if data.empty {
        go(s, UploadPhase::CollectingOpen, Seq::empty(), UploadAction::CollectOpenFight)
    } else {
        let uploader = Uploader { in_progress: false, ..s.uploader };
        go(
            UploadPart { uploader, data, is_real_time: false, in_progress_count: 0, ..s },
            UploadPhase::CollectingMaster,
            Seq::empty(),
            UploadAction::CollectMaster,
        )
    }
}

/// The fight in progress: it is uploaded where there is one and that is asked for.
pub open spec fn opened(s: UploadPart, data: FightData) -> UploadStepView {
    let notes = if !s.uploader.in_progress && !data.empty {
        seq![UploadNote::FightInProgress]
    } else {
        Seq::empty()
    };
    let uploader = Uploader { in_progress: !data.empty, ..s.uploader };
    let told = UploadPart { uploader, ..s };
    if !s.uploader.real_time || data.empty {
        go(told, UploadPhase::Over, notes, UploadAction::Done { uploaded: false })
    } else {
        go(
            UploadPart { data, is_real_time: true, in_progress_count: data.first_count, ..told },
            UploadPhase::CollectingMaster,
            notes,
            UploadAction::CollectMaster,
        )
    }
}

/// The master tables go before the segment where the site does not have them yet.
pub open spec fn mastered(s: UploadPart, ids: MasterIds) -> UploadStepView {
    let known = UploadPart { ids, ..s };
    if s.uploader.last_master_ids == Some(ids) {
        send(known, Seq::empty())
    } else {
        go(
            known,
            UploadPhase::SettingMaster,
            Seq::empty(),
            UploadAction::SetMaster {
                segment_id: s.uploader.segment_id,
                is_real_time: s.is_real_time,
                log_version: s.data.log_version,
                game_version: s.data.game_version,
            },
        )
    }
}

pub open spec fn master_set(s: UploadPart) -> UploadStepView {
    let uploader = Uploader { last_master_ids: Some(s.ids), ..s.uploader };
    send(
        UploadPart { uploader, ..s },
        seq![
            UploadNote::MasterUploaded {
                segment_id: s.uploader.segment_id,
                is_real_time: s.is_real_time,
                ids: s.ids,
            },
        ],
    )
}

/// The segment. It is part of a live report.
pub open spec fn send(s: UploadPart, notes: Seq<UploadNote>) -> UploadStepView {
    go(
        s,
        UploadPhase::Adding,
        notes,
        UploadAction::AddSegment {
            segment_id: s.uploader.segment_id,
            start_time: s.data.start_time,
            end_time: s.data.end_time,
            mythic: s.data.mythic,
            is_live: true,
            is_real_time: s.is_real_time,
            in_progress_count: s.in_progress_count,
        },
    )
}

/// The site took the segment. One of a fight in progress comes back with 0 and is
/// overwritten in place by the next.
pub open spec fn added(s: UploadPart, next: i64) -> UploadStepView {
    let note = UploadNote::SegmentUploaded(
        SegmentNumbers {
            segment_id: s.uploader.segment_id,
            next_segment_id: next,
            start_time: s.data.start_time,
            end_time: s.data.end_time,
            mythic: s.data.mythic,
            is_real_time: s.is_real_time,
            in_progress_count: s.in_progress_count,
            push_fight: s.push_fight,
        },
    );
    if next > 0 {
        let segments = s.uploader.segments.wrapping_add(1);
        let uploader = Uploader { segment_id: next, segments, ..s.uploader };
        go(
            UploadPart { uploader, ..s },
            UploadPhase::Clearing,
            seq![note, UploadNote::Counted { segments }],
            UploadAction::ClearFights,
        )
    } else {
        go(s, UploadPhase::Clearing, seq![note], UploadAction::ClearFights)
    }
}

pub open spec fn finish(s: UploadPart, action: UploadAction) -> UploadStepView {
    go(s, UploadPhase::Over, Seq::empty(), action)
}

/// What follows in state `s` on `event`.
pub open spec fn next(s: UploadPart, event: UploadEvent) -> UploadStepView {
    match (s.phase, event) {
        (UploadPhase::Parsing, UploadEvent::Parsed) => collect(s),
        (UploadPhase::Collecting, UploadEvent::Fights(data)) => collected(s, data),
        (UploadPhase::ClearingSliver, UploadEvent::Cleared) => finish(
            s,
            UploadAction::Done { uploaded: false },
        ),
        (UploadPhase::CollectingOpen, UploadEvent::OpenFight(data)) => opened(s, data),
        (UploadPhase::CollectingMaster, UploadEvent::Master(ids)) => mastered(s, ids),
        (UploadPhase::SettingMaster, UploadEvent::MasterSet) => master_set(s),
        (UploadPhase::Adding, UploadEvent::Added(next_id)) => added(s, next_id),
        (UploadPhase::Clearing, UploadEvent::Cleared) => finish(
            s,
            UploadAction::Done { uploaded: true },
        ),
        _ => finish(s, UploadAction::Fail),
    }
}

// ---- the machine ------------------------------------------------------------------

fn step(
    s: UploadPart,
    phase: UploadPhase,
    notes: Vec<UploadNote>,
    action: UploadAction,
) -> (r: UploadStep)
    ensures
        r@ == go(s, phase, notes@, action),
{
    UploadStep { state: UploadPart { phase, ..s }, notes, action }
}

fn same_ids(a: MasterIds, b: MasterIds) -> (r: bool)
    ensures
        r == (a == b),
{
    a.actor == b.actor && a.ability == b.ability && a.tuple == b.tuple && a.pet == b.pet
}

impl UploadPart {
    /// Starts an upload. Without lines, it only collects what the parser has.
    pub fn begin(
        uploader: Uploader,
        no_lines: bool,
        push_fight: bool,
        drop_slivers: bool,
    ) -> (r: UploadStep)
        ensures
            r@ == begin(blank(uploader, push_fight, drop_slivers), no_lines),
    {
        let nothing = FightData {
            empty: true,
            sliver: true,
            events: 0,
            first_count: 0,
            start_time: 0,
            end_time: 0,
            mythic: 0,
            log_version: 0,
            game_version: 0,
        };
        let s = UploadPart {
            phase: UploadPhase::Over,
            uploader,
            push_fight,
            drop_slivers,
            data: nothing,
            is_real_time: false,
            in_progress_count: 0,
            ids: MasterIds { actor: 0, ability: 0, tuple: 0, pet: 0 },
        };
        if no_lines {
            s.collect()
        } else {
            step(s, UploadPhase::Parsing, Vec::new(), UploadAction::ParseLines)
        }
    }

    fn collect(self) -> (r: UploadStep)
        ensures
            r@ == collect(self),
    {
        let action = UploadAction::CollectFights { push_fight: self.push_fight };
        step(self, UploadPhase::Collecting, Vec::new(), action)
    }

    fn collected(self, data: FightData) -> (r: UploadStep)
        ensures
            r@ == collected(self, data),
    {
        if self.push_fight && self.drop_slivers && !data.empty && data.sliver {
            let mut notes: Vec<UploadNote> = Vec::new();
            notes.push(UploadNote::SliverDropped);
            assert(notes@ =~= seq![UploadNote::SliverDropped]);
            step(self, UploadPhase::ClearingSliver, notes, UploadAction::ClearFights)
        } else if data.empty {
            step(self, UploadPhase::CollectingOpen, Vec::new(), UploadAction::CollectOpenFight)
        } else {
            let uploader = Uploader { in_progress: false, ..self.uploader };
            let s = UploadPart {
                uploader,
                data,
                is_real_time: false,
                in_progress_count: 0,
                ..self
            };
            step(s, UploadPhase::CollectingMaster, Vec::new(), UploadAction::CollectMaster)
        }
    }

    fn opened(self, data: FightData) -> (r: UploadStep)
        ensures
            r@ == opened(self, data),
    {
        let mut notes: Vec<UploadNote> = Vec::new();
        if !self.uploader.in_progress && !data.empty {
            notes.push(UploadNote::FightInProgress);
            assert(notes@ =~= seq![UploadNote::FightInProgress]);
        }
        let uploader = Uploader { in_progress: !data.empty, ..self.uploader };
        let told = UploadPart { uploader, ..self };
        if !self.uploader.real_time || data.empty {
            step(told, UploadPhase::Over, notes, UploadAction::Done { uploaded: false })
        } else {
            let s = UploadPart {
                data,
                is_real_time: true,
                in_progress_count: data.first_count,
                ..told
            };
            step(s, UploadPhase::CollectingMaster, notes, UploadAction::CollectMaster)
        }
    }

    fn mastered(self, ids: MasterIds) -> (r: UploadStep)
        ensures
            r@ == mastered(self, ids),
    {
        let known = UploadPart { ids, ..self };
        let has = match self.uploader.last_master_ids {
            Some(last) => same_ids(last, ids),
            None => false,
        };
        if has {
            known.send(Vec::new())
        } else {
            let action = UploadAction::SetMaster {
                segment_id: self.uploader.segment_id,
                is_real_time: self.is_real_time,
                log_version: self.data.log_version,
                game_version: self.data.game_version,
            };
            step(known, UploadPhase::SettingMaster, Vec::new(), action)
        }
    }

    fn master_set(self) -> (r: UploadStep)
        ensures
            r@ == master_set(self),
    {
        let note = UploadNote::MasterUploaded {
            segment_id: self.uploader.segment_id,
            is_real_time: self.is_real_time,
            ids: self.ids,
        };
        let mut notes: Vec<UploadNote> = Vec::new();
        notes.push(note);
        assert(notes@ =~= seq![note]);
        let uploader = Uploader { last_master_ids: Some(self.ids), ..self.uploader };
        let s = UploadPart { uploader, ..self };
        s.send(notes)
    }

    fn send(self, notes: Vec<UploadNote>) -> (r: UploadStep)
        ensures
            r@ == send(self, notes@),
    {
        let action = UploadAction::AddSegment {
            segment_id: self.uploader.segment_id,
            start_time: self.data.start_time,
            end_time: self.data.end_time,
            mythic: self.data.mythic,
            is_live: true,
            is_real_time: self.is_real_time,
            in_progress_count: self.in_progress_count,
        };
        step(self, UploadPhase::Adding, notes, action)
    }

    fn added(self, next: i64) -> (r: UploadStep)
        ensures
            r@ == added(self, next),
    {
        let note = UploadNote::SegmentUploaded(
            SegmentNumbers {
                segment_id: self.uploader.segment_id,
                next_segment_id: next,
                start_time: self.data.start_time,
                end_time: self.data.end_time,
                mythic: self.data.mythic,
                is_real_time: self.is_real_time,
                in_progress_count: self.in_progress_count,
                push_fight: self.push_fight,
            },
        );
        let mut notes: Vec<UploadNote> = Vec::new();
        notes.push(note);
        if next > 0 {
            let segments = self.uploader.segments.wrapping_add(1);
            notes.push(UploadNote::Counted { segments });
            assert(notes@ =~= seq![note, UploadNote::Counted { segments }]);
            let uploader = Uploader { segment_id: next, segments, ..self.uploader };
            let s = UploadPart { uploader, ..self };
            step(s, UploadPhase::Clearing, notes, UploadAction::ClearFights)
        } else {
            assert(notes@ =~= seq![note]);
            step(self, UploadPhase::Clearing, notes, UploadAction::ClearFights)
        }
    }

    fn finish(self, action: UploadAction) -> (r: UploadStep)
        ensures
            r@ == finish(self, action),
    {
        step(self, UploadPhase::Over, Vec::new(), action)
    }

    /// What follows on the answer `event`. An answer that the upload does not wait
    /// for ends it as a failure does.
    pub fn step(self, event: UploadEvent) -> (r: UploadStep)
        ensures
            r@ == next(self, event),
    {
        match (self.phase, event) {
            (UploadPhase::Parsing, UploadEvent::Parsed) => self.collect(),
            (UploadPhase::Collecting, UploadEvent::Fights(data)) => self.collected(data),
            (UploadPhase::ClearingSliver, UploadEvent::Cleared) => self.finish(
                UploadAction::Done { uploaded: false },
            ),
            (UploadPhase::CollectingOpen, UploadEvent::OpenFight(data)) => self.opened(data),
            (UploadPhase::CollectingMaster, UploadEvent::Master(ids)) => self.mastered(ids),
            (UploadPhase::SettingMaster, UploadEvent::MasterSet) => self.master_set(),
            (UploadPhase::Adding, UploadEvent::Added(next_id)) => self.added(next_id),
            (UploadPhase::Clearing, UploadEvent::Cleared) => self.finish(
                UploadAction::Done { uploaded: true },
            ),
            _ => self.finish(UploadAction::Fail),
        }
    }
}

} // verus!
