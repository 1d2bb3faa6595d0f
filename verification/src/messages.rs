//! What the user and the journal are told of a live session.

use vstd::prelude::*;

use crate::numbers;
use crate::tail::TailNote;
use crate::uploader::UploadNote;

verus! {

broadcast use {vstd::string::group_string_axioms, vstd::seq::group_seq_axioms};

/// A line for the user: the state of the session and what is going on.
pub struct Message {
    pub state: String,
    pub text: String,
}

/// A line for the user as plain values.
pub struct MessageView {
    pub state: Seq<char>,
    pub text: Seq<char>,
}

impl View for Message {
    type V = MessageView;

    open spec fn view(&self) -> MessageView {
        MessageView { state: self.state@, text: self.text@ }
    }
}

fn say(state: &str, text: &str) -> (r: Option<Message>)
    ensures
        r matches Some(m) && m@ == (MessageView { state: state@, text: text@ }),
{
    Some(Message { state: state.to_owned(), text: text.to_owned() })
}

/// `front` and `back` as one text.
pub(crate) fn joined(front: &str, back: &str) -> (r: String)
    ensures
        r@ == front@ + back@,
{
    let mut out = front.to_owned();
    out.append(back);
    out
}

/// What the user is told of a note of the tail of `file`.
pub open spec fn tail_text(note: TailNote, file: Seq<char>) -> Option<MessageView> {
    match note {
        TailNote::WaitingForLog => Some(
            MessageView { state: "waiting"@, text: "Waiting for a combat log to appear..."@ },
        ),
        TailNote::Tailing => Some(MessageView { state: "tailing"@, text: "Tailing "@ + file }),
        TailNote::Truncated { .. } => Some(
            MessageView {
                state: "tailing"@,
                text: "Log truncated — reading from the beginning"@,
            },
        ),
        TailNote::IdleFlush { .. } => Some(
            MessageView { state: "idle"@, text: "Log idle — flushing current fight"@ },
        ),
        TailNote::Stopping { .. } => Some(
            MessageView {
                state: "uploading"@,
                text: "Stopping — waiting for final log writes..."@,
            },
        ),
        TailNote::FinalFlush { .. } => Some(
            MessageView { state: "uploading"@, text: "Stopping — flushing final data..."@ },
        ),
        _ => None,
    }
}

/// What the user is told of a note of the tail of `file`; some are for the journal
/// alone.
pub fn tail_message(note: TailNote, file: &str) -> (r: Option<Message>)
    ensures
        r is Some <==> tail_text(note, file@) is Some,
        r matches Some(m) ==> m@ == tail_text(note, file@)->0,
{
    match note {
        TailNote::WaitingForLog => say("waiting", "Waiting for a combat log to appear..."),
        TailNote::Tailing => say("tailing", joined("Tailing ", file).as_str()),
        TailNote::Truncated { .. } => say(
            "tailing",
            "Log truncated — reading from the beginning",
        ),
        TailNote::IdleFlush { .. } => say("idle", "Log idle — flushing current fight"),
        TailNote::Stopping { .. } => say(
            "uploading",
            "Stopping — waiting for final log writes...",
        ),
        TailNote::FinalFlush { .. } => say("uploading", "Stopping — flushing final data..."),
        _ => None,
    }
}

/// Under which name the journal records a note of the tail.
pub open spec fn tail_record(note: TailNote) -> Option<Seq<char>> {
    match note {
        TailNote::WaitingForLog => None,
        TailNote::Tailing => Some("tail_file"@),
        TailNote::ReadError { .. } => Some("read_error"@),
        TailNote::Truncated { .. } => Some("truncated"@),
        TailNote::IdleFlushSkipped { .. } => Some("idle_flush_skipped"@),
        TailNote::IdleFlush { .. } => Some("idle_flush"@),
        TailNote::Stopping { .. } => Some("stop"@),
        TailNote::FinalDrainFailed => None,
        TailNote::FinalFlush { .. } => Some("final_flush"@),
        TailNote::FinalFlushFailed => Some("final_flush_failed"@),
    }
}

/// Under which name the journal records a note of the tail, where it does.
pub fn tail_event(note: TailNote) -> (r: Option<&'static str>)
    ensures
        r is Some <==> tail_record(note) is Some,
        r matches Some(name) ==> name@ == tail_record(note)->0,
{
    match note {
        TailNote::WaitingForLog => None,
        TailNote::Tailing => Some("tail_file"),
        TailNote::ReadError { .. } => Some("read_error"),
        TailNote::Truncated { .. } => Some("truncated"),
        TailNote::IdleFlushSkipped { .. } => Some("idle_flush_skipped"),
        TailNote::IdleFlush { .. } => Some("idle_flush"),
        TailNote::Stopping { .. } => Some("stop"),
        TailNote::FinalDrainFailed => None,
        TailNote::FinalFlush { .. } => Some("final_flush"),
        TailNote::FinalFlushFailed => Some("final_flush_failed"),
    }
}

/// What the user is told of a note of an upload.
pub open spec fn upload_text(note: UploadNote) -> Option<MessageView> {
    match note {
        UploadNote::FightInProgress => Some(
            MessageView { state: "tailing"@, text: "Fight in progress"@ },
        ),
        UploadNote::Counted { segments } => Some(
            MessageView {
                state: "uploading"@,
                text: "Uploaded segment "@ + numbers::decimal(segments as nat),
            },
        ),
        _ => None,
    }
}

/// What the user is told of a note of an upload; some are for the journal alone.
pub fn upload_message(note: UploadNote) -> (r: Option<Message>)
    ensures
        r is Some <==> upload_text(note) is Some,
        r matches Some(m) ==> m@ == upload_text(note)->0,
{
    match note {
        UploadNote::FightInProgress => say("tailing", "Fight in progress"),
        UploadNote::Counted { segments } => {
            let mut out = "Uploaded segment ".to_owned();
            numbers::push_decimal(&mut out, segments as u128);
            say("uploading", out.as_str())
        },
        _ => None,
    }
}

/// Under which name the journal records a note of an upload.
pub open spec fn upload_record(note: UploadNote) -> Option<Seq<char>> {
    match note {
        UploadNote::SliverDropped => Some("sliver_dropped"@),
        UploadNote::MasterUploaded { .. } => Some("master_upload"@),
        UploadNote::SegmentUploaded(_) => Some("segment_upload"@),
        UploadNote::FightInProgress => None,
        UploadNote::Counted { .. } => None,
    }
}

/// Under which name the journal records a note of an upload, where it does.
pub fn upload_event(note: UploadNote) -> (r: Option<&'static str>)
    ensures
        r is Some <==> upload_record(note) is Some,
        r matches Some(name) ==> name@ == upload_record(note)->0,
{
    match note {
        UploadNote::SliverDropped => Some("sliver_dropped"),
        UploadNote::MasterUploaded { .. } => Some("master_upload"),
        UploadNote::SegmentUploaded(_) => Some("segment_upload"),
        UploadNote::FightInProgress => None,
        UploadNote::Counted { .. } => None,
    }
}

/// What the user reads while a log is tailed. Skipped flushes and failures are for the
/// journal alone.
pub proof fn users_are_told_of_the_tail(
    file: Seq<char>,
    offset: u64,
    file_size: u64,
    encounter_open: bool,
    key_open: bool,
)
    ensures
        ({
            let says = |note: TailNote, state: Seq<char>, text: Seq<char>|
                tail_text(note, file) == Some(MessageView { state, text });
            let silent = |note: TailNote| tail_text(note, file) is None;
            &&& says(
                TailNote::WaitingForLog,
                "waiting"@,
                "Waiting for a combat log to appear..."@,
            )
            &&& says(TailNote::Tailing, "tailing"@, "Tailing "@ + file)
            &&& says(
                TailNote::Truncated { offset, file_size },
                "tailing"@,
                "Log truncated — reading from the beginning"@,
            )
            &&& says(
                TailNote::IdleFlush { offset },
                "idle"@,
                "Log idle — flushing current fight"@,
            )
            &&& says(
                TailNote::Stopping { offset },
                "uploading"@,
                "Stopping — waiting for final log writes..."@,
            )
            &&& says(
                TailNote::FinalFlush { offset },
                "uploading"@,
                "Stopping — flushing final data..."@,
            )
            &&& silent(TailNote::ReadError { offset })
            &&& silent(TailNote::IdleFlushSkipped { offset, encounter_open, key_open })
            &&& silent(TailNote::FinalDrainFailed)
            &&& silent(TailNote::FinalFlushFailed)
        }),
{
}

/// What the user reads of an upload: that a fight goes on, and how many segments went up.
pub proof fn users_are_told_of_uploads(note: UploadNote, segments: u64)
    ensures
        upload_text(UploadNote::FightInProgress) == Some(
            MessageView { state: "tailing"@, text: "Fight in progress"@ },
        ),
        upload_text(UploadNote::Counted { segments }) == Some(
            MessageView {
                state: "uploading"@,
                text: "Uploaded segment "@ + numbers::decimal(segments as nat),
            },
        ),
        !(note is FightInProgress) && !(note is Counted) ==> upload_text(note) is None,
{
}

/// Under which names the journal records the tail. What is told to the user alone, and the
/// failure of a last read, have none.
pub proof fn the_journal_names_what_happens(
    note: TailNote,
    offset: u64,
    file_size: u64,
    encounter_open: bool,
    key_open: bool,
    upload: UploadNote,
)
    ensures
        tail_record(TailNote::Tailing) == Some("tail_file"@),
        tail_record(TailNote::ReadError { offset }) == Some("read_error"@),
        tail_record(TailNote::Truncated { offset, file_size }) == Some("truncated"@),
        tail_record(TailNote::IdleFlushSkipped { offset, encounter_open, key_open }) == Some(
            "idle_flush_skipped"@,
        ),
        tail_record(TailNote::IdleFlush { offset }) == Some("idle_flush"@),
        tail_record(TailNote::Stopping { offset }) == Some("stop"@),
        tail_record(TailNote::FinalFlush { offset }) == Some("final_flush"@),
        tail_record(TailNote::FinalFlushFailed) == Some("final_flush_failed"@),
        note is WaitingForLog || note is FinalDrainFailed <==> tail_record(note) is None,
        upload is SliverDropped ==> upload_record(upload) == Some("sliver_dropped"@),
        upload is MasterUploaded ==> upload_record(upload) == Some("master_upload"@),
        upload is SegmentUploaded ==> upload_record(upload) == Some("segment_upload"@),
        upload is FightInProgress || upload is Counted <==> upload_record(upload) is None,
{
}

} // verus!
