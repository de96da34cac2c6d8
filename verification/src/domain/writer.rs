//! The write job: copying an image onto a device, one step at a time.
//!
//! The job itself touches no file. It is a state machine: it names the
//! next thing to do ([`WriteAction`]), is told what came of it
//! ([`WriteEvent`]) and answers with the messages to report and the
//! action after that. Whoever drives it opens, reads and writes.

use crate::app::msg::{Msg, MsgView};
use crate::domain::paths::DevicePath;
use vstd::prelude::*;

verus! {

/// The size of the buffer that the copy and the comparison work on.
pub const CHUNK_SIZE: usize = 4194304;

/// Bytes per second when `done` bytes took `elapsed_micros` microseconds.
/// Less than one microsecond counts as one; the result stops at the
/// largest 64-bit number.
pub open spec fn throughput(done: nat, elapsed_micros: nat) -> nat {
    let micros = if elapsed_micros == 0 {
        1
    } else {
        elapsed_micros
    };
    let rate = done * 1_000_000 / micros;
    if rate > u64::MAX {
        u64::MAX as nat
    } else {
        rate
    }
}

/// Bytes per second when `done` bytes took `elapsed_micros` microseconds.
pub fn throughput_bps(done: u64, elapsed_micros: u64) -> (r: u64)
    ensures
        r == throughput(done as nat, elapsed_micros as nat),
{
    let micros: u128 = if elapsed_micros == 0 {
        1
    } else {
        elapsed_micros as u128
    };
    assert(done as u128 * 1_000_000 <= 0xffff_ffff_ffff_ffff * 1_000_000) by (nonlinear_arith)
        requires
            done as u128 <= 0xffff_ffff_ffff_ffff,
    ;
    let rate: u128 = (done as u128 * 1_000_000) / micros;
    if rate > u64::MAX as u128 {
        u64::MAX
    } else {
        rate as u64
    }
}

/// `a + b`, stopping at the largest 64-bit number.
pub open spec fn capped_sum(a: nat, b: nat) -> nat {
    if a + b > u64::MAX {
        u64::MAX as nat
    } else {
        a + b
    }
}

/// Where a write job stands.
#[derive(Debug, Clone, Copy, PartialEq, Eq, Structural)]
pub enum WriteStage {
    Unmount,
    OpenSource,
    OpenDevice,
    Read,
    Write,
    Flush,
    Sync,
    Reread,
    Done,
}

/// What the driver of a write job has to do next.
#[derive(Debug, Clone, Copy, PartialEq, Eq, Structural)]
pub enum WriteAction {
    /// Unmount what is mounted of the device. Failure does not matter.
    Unmount,
    /// Open the image for reading and find its size.
    OpenSource,
    /// Open the device for writing, without truncating or creating it.
    OpenDevice,
    /// Read the next chunk of the image, at most [`CHUNK_SIZE`] bytes.
    Read,
    /// Write the bytes `from..to` of the chunk to the device.
    Write { from: usize, to: usize },
    /// Flush the device.
    Flush,
    /// Force what was written onto the device.
    Sync,
    /// Have the partition table read again. Failure does not matter.
    RereadPartitions,
    /// Nothing: the job is over.
    Finish,
}

/// What a [`WriteEvent`] stands for.
pub enum WriteEventView {
    Unmounted,
    SourceOpened { total: nat },
    SourceOpenFailed(Seq<char>),
    SourceStatFailed(Seq<char>),
    DeviceOpened,
    DeviceOpenFailed(Seq<char>),
    ReadDone { n: nat },
    ReadFailed(Seq<char>),
    Wrote { n: nat },
    WriteFailed(Seq<char>),
    Flushed,
    FlushFailed(Seq<char>),
    Synced,
    SyncFailed(Seq<char>),
    Reread,
}

/// What came of the last action of a write job. A failure carries the
/// system's own words for it.
#[derive(Debug)]
pub enum WriteEvent {
    /// The unmount was tried.
    Unmounted,
    /// The image is open and holds `total` bytes.
    SourceOpened { total: u64 },
    SourceOpenFailed(String),
    SourceStatFailed(String),
    DeviceOpened,
    DeviceOpenFailed(String),
    /// `n` bytes were read; none means the image has ended.
    ReadDone { n: usize },
    ReadFailed(String),
    /// `n` bytes of the range asked for were written. None is a failure
    /// of the write and ends the job.
    Wrote { n: usize },
    WriteFailed(String),
    Flushed,
    FlushFailed(String),
    Synced,
    SyncFailed(String),
    /// The re-read of the partition table was tried.
    Reread,
}

impl View for WriteEvent {
    type V = WriteEventView;

    open spec fn view(&self) -> WriteEventView {
        match *self {
            WriteEvent::Unmounted => WriteEventView::Unmounted,
            WriteEvent::SourceOpened { total } => WriteEventView::SourceOpened {
                total: total as nat,
            },
            WriteEvent::SourceOpenFailed(e) => WriteEventView::SourceOpenFailed(e@),
            WriteEvent::SourceStatFailed(e) => WriteEventView::SourceStatFailed(e@),
            WriteEvent::DeviceOpened => WriteEventView::DeviceOpened,
            WriteEvent::DeviceOpenFailed(e) => WriteEventView::DeviceOpenFailed(e@),
            WriteEvent::ReadDone { n } => WriteEventView::ReadDone { n: n as nat },
            WriteEvent::ReadFailed(e) => WriteEventView::ReadFailed(e@),
            WriteEvent::Wrote { n } => WriteEventView::Wrote { n: n as nat },
            WriteEvent::WriteFailed(e) => WriteEventView::WriteFailed(e@),
            WriteEvent::Flushed => WriteEventView::Flushed,
            WriteEvent::FlushFailed(e) => WriteEventView::FlushFailed(e@),
            WriteEvent::Synced => WriteEventView::Synced,
            WriteEvent::SyncFailed(e) => WriteEventView::SyncFailed(e@),
            WriteEvent::Reread => WriteEventView::Reread,
        }
    }
}

/// What a [`WriteJob`] stands for.
pub struct WriteJobView {
    pub stage: WriteStage,
    /// The size of the image when it was opened.
    pub total: nat,
    /// Bytes taken from the image so far.
    pub read: nat,
    /// Bytes put on the device so far.
    pub written: nat,
    /// The length of the chunk in hand.
    pub chunk: nat,
    /// How much of the chunk in hand is written.
    pub offset: nat,
    pub device: Seq<char>,
}

/// One write of one image onto one device.
#[derive(Debug)]
pub struct WriteJob {
    stage: WriteStage,
    total: u64,
    read: u64,
    written: u64,
    chunk: usize,
    offset: usize,
    device: DevicePath,
}

impl View for WriteJob {
    type V = WriteJobView;

    closed spec fn view(&self) -> WriteJobView {
        WriteJobView {
            stage: self.stage,
            total: self.total as nat,
            read: self.read as nat,
            written: self.written as nat,
            chunk: self.chunk as nat,
            offset: self.offset as nat,
            device: self.device@,
        }
    }
}

/// A job that has not begun, for the device at `device`.
pub open spec fn fresh_write(device: Seq<char>) -> WriteJobView {
    WriteJobView {
        stage: WriteStage::Unmount,
        total: 0,
        read: 0,
        written: 0,
        chunk: 0,
        offset: 0,
        device,
    }
}

/// What a step of a write job gives: the job after it, what to do next,
/// and the messages to report, in order.
pub struct WriteStep {
    pub job: WriteJobView,
    pub action: WriteAction,
    pub messages: Seq<MsgView>,
}

/// What is said of a write that took no byte of a range that holds
/// some.
pub open spec fn nothing_written_text() -> Seq<char> {
    "failed to write whole buffer"@
}

impl WriteJobView {
    /// The job is consistent: no more of the chunk is written than it
    /// holds, a chunk is in hand only while it is being written or when
    /// the job failed over it, and what was read is on the device or in
    /// the chunk, as long as the counters have not reached their cap.
    pub open spec fn wf(self) -> bool {
        &&& self.offset <= self.chunk
        &&& self.chunk <= usize::MAX
        &&& self.written <= u64::MAX
        &&& self.read <= u64::MAX
        &&& self.total <= u64::MAX
        &&& self.stage != WriteStage::Write && self.stage != WriteStage::Done ==> self.chunk == 0
        &&& self.stage == WriteStage::Write ==> self.offset < self.chunk
        &&& self.read < u64::MAX ==> self.written + (self.chunk - self.offset) == self.read
    }

    /// The action that the job waits to hear of.
    pub open spec fn awaited(self) -> WriteAction {
        match self.stage {
            WriteStage::Unmount => WriteAction::Unmount,
            WriteStage::OpenSource => WriteAction::OpenSource,
            WriteStage::OpenDevice => WriteAction::OpenDevice,
            WriteStage::Read => WriteAction::Read,
            WriteStage::Write => WriteAction::Write {
                from: self.offset as usize,
                to: self.chunk as usize,
            },
            WriteStage::Flush => WriteAction::Flush,
            WriteStage::Sync => WriteAction::Sync,
            WriteStage::Reread => WriteAction::RereadPartitions,
            WriteStage::Done => WriteAction::Finish,
        }
    }

    /// The job moved on to `stage`, with nothing to report.
    pub open spec fn advance(self, stage: WriteStage) -> WriteStep {
        let job = WriteJobView { stage, ..self };
        WriteStep { job, action: job.awaited(), messages: Seq::empty() }
    }

    /// The job ended in failure with the message `what` followed by
    /// `why`.
    pub open spec fn fail(self, what: Seq<char>, why: Seq<char>) -> WriteStep {
        WriteStep {
            job: WriteJobView { stage: WriteStage::Done, ..self },
            action: WriteAction::Finish,
            messages: seq![MsgView::WriteFinished(Err(what + why))],
        }
    }

    /// The job after `n` bytes of the chunk in hand went to the device.
    /// A write that took nothing is a failure and ends the job: it is not
    /// tried again. With the chunk complete, progress is reported and the
    /// next chunk is asked for; with part of it left, that part is asked
    /// for.
    pub open spec fn wrote(self, n: nat, elapsed_micros: nat) -> WriteStep {
        let left = (self.chunk - self.offset) as nat;
        let taken = if n > left {
            left
        } else {
            n
        };
        let written = capped_sum(self.written, taken);
        if n == 0 {
            self.fail("Write error: "@, nothing_written_text())
        } else if self.offset + taken == self.chunk {
            WriteStep {
                job: WriteJobView {
                    stage: WriteStage::Read,
                    written,
                    chunk: 0,
                    offset: 0,
                    ..self
                },
                action: WriteAction::Read,
                messages: seq![
                    MsgView::WriteProgress {
                        written,
                        total: self.total,
                        bps: throughput(written, elapsed_micros),
                    },
                ],
            }
        } else {
            let job = WriteJobView { written, offset: self.offset + taken, ..self };
            WriteStep { job, action: job.awaited(), messages: Seq::empty() }
        }
    }

    /// The step that `event` makes, when it arrives `elapsed_micros`
    /// microseconds into the copy. An event that does not answer the
    /// awaited action changes nothing.
    pub open spec fn step(self, event: WriteEventView, elapsed_micros: nat) -> WriteStep {
        match (self.stage, event) {
            (WriteStage::Unmount, WriteEventView::Unmounted) => self.advance(
                WriteStage::OpenSource,
            ),
            (WriteStage::OpenSource, WriteEventView::SourceOpened { total }) => WriteStep {
                job: WriteJobView { stage: WriteStage::OpenDevice, total, ..self },
                action: WriteAction::OpenDevice,
                messages: seq![MsgView::WriteStarted { total }],
            },
            (WriteStage::OpenSource, WriteEventView::SourceOpenFailed(e)) => self.fail(
                "Failed to open ISO: "@,
                e,
            ),
            (WriteStage::OpenSource, WriteEventView::SourceStatFailed(e)) => self.fail(
                "Failed to stat ISO: "@,
                e,
            ),
            (WriteStage::OpenDevice, WriteEventView::DeviceOpened) => self.advance(
                WriteStage::Read,
            ),
            (WriteStage::OpenDevice, WriteEventView::DeviceOpenFailed(e)) => self.fail(
                "Failed to open device "@ + self.device + ": "@,
                e,
            ),
            (WriteStage::Read, WriteEventView::ReadDone { n }) => if n == 0 {
                self.advance(WriteStage::Flush)
            } else {
                let job = WriteJobView {
                    stage: WriteStage::Write,
                    read: capped_sum(self.read, n),
                    chunk: n,
                    offset: 0,
                    ..self
                };
                WriteStep { job, action: job.awaited(), messages: Seq::empty() }
            },
            (WriteStage::Read, WriteEventView::ReadFailed(e)) => self.fail("Read error: "@, e),
            (WriteStage::Write, WriteEventView::Wrote { n }) => self.wrote(n, elapsed_micros),
            (WriteStage::Write, WriteEventView::WriteFailed(e)) => self.fail("Write error: "@, e),
            (WriteStage::Flush, WriteEventView::Flushed) => self.advance(WriteStage::Sync),
            (WriteStage::Flush, WriteEventView::FlushFailed(e)) => self.fail("Flush error: "@, e),
            (WriteStage::Sync, WriteEventView::Synced) => self.advance(WriteStage::Reread),
            (WriteStage::Sync, WriteEventView::SyncFailed(e)) => self.fail(
                "sync_all error: "@,
                e,
            ),
            (WriteStage::Reread, WriteEventView::Reread) => WriteStep {
                job: WriteJobView { stage: WriteStage::Done, ..self },
                action: WriteAction::Finish,
                messages: seq![MsgView::WriteFinished(Ok(()))],
            },
            _ => WriteStep { job: self, action: self.awaited(), messages: Seq::empty() },
        }
    }
}

/// Whether the numbers that `event` carries fit the machine.
pub open spec fn fits(event: WriteEventView) -> bool {
    match event {
        WriteEventView::SourceOpened { total } => total <= u64::MAX,
        WriteEventView::ReadDone { n } => n <= usize::MAX,
        WriteEventView::Wrote { n } => n <= usize::MAX,
        _ => true,
    }
}

/// What a job makes of a run of events, each with the time at which it
/// arrived: the job after them and all messages reported, in order.
pub open spec fn write_run(job: WriteJobView, events: Seq<(WriteEventView, nat)>) -> (
    WriteJobView,
    Seq<MsgView>,
)
    decreases events.len(),
{
    if events.len() == 0 {
        (job, Seq::empty())
    } else {
        let before = write_run(job, events.drop_last());
        let step = before.0.step(events.last().0, events.last().1);
        (step.job, before.1 + step.messages)
    }
}

/// The byte count of the last progress message among `messages`, if
/// there is one.
pub open spec fn last_progress(messages: Seq<MsgView>) -> Option<nat>
    decreases messages.len(),
{
    if messages.len() == 0 {
        None
    } else if let MsgView::WriteProgress { written, .. } = messages.last() {
        Some(written)
    } else {
        last_progress(messages.drop_last())
    }
}

/// A step keeps the job consistent, never lowers the count of bytes
/// written, and reports progress with exactly that count and the size
/// found when the image was opened.
pub proof fn lemma_write_step(job: WriteJobView, event: WriteEventView, elapsed_micros: nat)
    requires
        job.wf(),
        fits(event),
    ensures
        job.step(event, elapsed_micros).job.wf(),
        job.written <= job.step(event, elapsed_micros).job.written,
        job.step(event, elapsed_micros).messages.len() <= 1,
        forall|i: int|
            0 <= i < job.step(event, elapsed_micros).messages.len() ==> match #[trigger] job.step(
                event,
                elapsed_micros,
            ).messages[i] {
                MsgView::WriteProgress { written, total, bps } => written == job.step(
                    event,
                    elapsed_micros,
                ).job.written && total == job.total && bps == throughput(written, elapsed_micros)
                    && job.stage == WriteStage::Write && written > 0 && (job.read < u64::MAX
                    ==> written == job.read) && (job.read <= job.total ==> written <= total),
                MsgView::WriteStarted { total } => job.stage == WriteStage::OpenSource && total
                    == job.step(event, elapsed_micros).job.total,
                MsgView::WriteFinished(_) => job.stage != WriteStage::Done && job.step(
                    event,
                    elapsed_micros,
                ).job.stage == WriteStage::Done,
                _ => false,
            },
        job.stage == WriteStage::Done ==> job.step(event, elapsed_micros).job == job && job.step(
            event,
            elapsed_micros,
        ).messages.len() == 0,
        job.step(event, elapsed_micros).job.stage == WriteStage::Done && job.stage
            != WriteStage::Done ==> job.step(event, elapsed_micros).messages.len() == 1 && job.step(
            event,
            elapsed_micros,
        ).messages[0] is WriteFinished,
{
}

/// While a chunk is being written, every answer to a write moves the job
/// on: it ends the job, completes the chunk, or leaves less of the chunk
/// to write. A write that takes nothing ends the job in failure with one
/// message, so no run of answers keeps a job writing for ever.
pub proof fn lemma_every_write_moves_on(job: WriteJobView, n: nat, elapsed_micros: nat)
    requires
        job.wf(),
        job.stage == WriteStage::Write,
        n <= usize::MAX,
    ensures
        ({
            let step = job.step(WriteEventView::Wrote { n }, elapsed_micros);
            &&& n == 0 ==> step.job.stage == WriteStage::Done && step.action == WriteAction::Finish
                && step.messages == seq![
                MsgView::WriteFinished(Err("Write error: "@ + nothing_written_text())),
            ]
            &&& n > 0 ==> step.job.stage == WriteStage::Read || (step.job.stage
                == WriteStage::Write && step.job.chunk == job.chunk && step.job.chunk
                - step.job.offset < job.chunk - job.offset)
        }),
{
}

/// A job that reports success has put on the device every byte it took
/// from the image; so, where the image gave as many bytes as it held when
/// it was opened, as many as that.
pub proof fn lemma_success_writes_all(job: WriteJobView, event: WriteEventView, elapsed_micros: nat)
    requires
        job.wf(),
        fits(event),
        job.step(event, elapsed_micros).messages.contains(MsgView::WriteFinished(Ok(()))),
    ensures
        job.stage == WriteStage::Reread,
        job.step(event, elapsed_micros).job.written == job.written,
        job.read < u64::MAX ==> job.written == job.read,
        job.read < u64::MAX && job.read == job.total ==> job.step(
            event,
            elapsed_micros,
        ).job.written == job.total,
{
    let s = job.step(event, elapsed_micros);
    let i = choose|i: int| 0 <= i < s.messages.len() && s.messages[i] == MsgView::WriteFinished(
        Ok(()),
    );
    assert(s.messages[i] == MsgView::WriteFinished(Ok(())));
}

/// Over a whole run: the job stays consistent; the byte counts of the
/// progress messages never decrease and lie between the count at the
/// start and the count at the end; a finishing message is the last
/// message; and a job that has not ended has reported no end.
pub proof fn lemma_write_run(job: WriteJobView, events: Seq<(WriteEventView, nat)>)
    requires
        job.wf(),
        forall|k: int| 0 <= k < events.len() ==> fits((#[trigger] events[k]).0),
    ensures
        write_run(job, events).0.wf(),
        job.written <= write_run(job, events).0.written,
        forall|i: int|
            0 <= i < write_run(job, events).1.len() ==> (#[trigger] write_run(
                job,
                events,
            ).1[i] matches MsgView::WriteProgress { written, .. } ==> job.written <= written
                <= write_run(job, events).0.written),
        forall|i: int, j: int|
            0 <= i < j < write_run(job, events).1.len() ==> (#[trigger] write_run(
                job,
                events,
            ).1[i] matches MsgView::WriteProgress { written: earlier, .. } ==> (
            #[trigger] write_run(job, events).1[j] matches MsgView::WriteProgress {
                written: later,
                ..
            } ==> earlier <= later)),
        forall|i: int|
            0 <= i < write_run(job, events).1.len() && #[trigger] write_run(
                job,
                events,
            ).1[i] is WriteFinished ==> i == write_run(job, events).1.len() - 1 && write_run(
                job,
                events,
            ).0.stage == WriteStage::Done,
    decreases events.len(),
{
    if events.len() > 0 {
        let before = write_run(job, events.drop_last());
        assert forall|k: int| 0 <= k < events.drop_last().len() implies fits(
            (#[trigger] events.drop_last()[k]).0,
        ) by {
            assert(events.drop_last()[k] == events[k]);
        }
        assert(fits(events[events.len() - 1].0));
        lemma_write_run(job, events.drop_last());
        lemma_write_step(before.0, events.last().0, events.last().1);
        let step = before.0.step(events.last().0, events.last().1);
        let all = write_run(job, events).1;
        assert(all == before.1 + step.messages);
        assert forall|i: int| 0 <= i < all.len() && #[trigger] all[i] is WriteFinished implies i
            == all.len() - 1 && step.job.stage == WriteStage::Done by {
            if i < before.1.len() {
                assert(all[i] == before.1[i]);
            } else {
                assert(all[i] == step.messages[i - before.1.len()]);
            }
        }
        assert forall|i: int| 0 <= i < all.len() implies (
        #[trigger] all[i] matches MsgView::WriteProgress { written, .. } ==> job.written <= written
            <= step.job.written) by {
            if i < before.1.len() {
                assert(all[i] == before.1[i]);
            } else {
                assert(all[i] == step.messages[i - before.1.len()]);
            }
        }
        assert forall|i: int, j: int| 0 <= i < j < all.len() implies (
        #[trigger] all[i] matches MsgView::WriteProgress { written: earlier, .. } ==> (
        #[trigger] all[j] matches MsgView::WriteProgress { written: later, .. } ==> earlier
            <= later)) by {
            if j < before.1.len() {
                assert(all[i] == before.1[i]);
                assert(all[j] == before.1[j]);
            } else {
                assert(all[j] == step.messages[j - before.1.len()]);
                if i < before.1.len() {
                    assert(all[i] == before.1[i]);
                } else {
                    assert(all[i] == step.messages[i - before.1.len()]);
                }
            }
        }
    }
}

/// Whether the job is at a point between chunks, on the way to success.
pub open spec fn between_chunks(job: WriteJobView) -> bool {
    job.stage != WriteStage::Write && job.stage != WriteStage::Done
}

/// Over a run that starts with nothing written: between chunks, the last
/// progress message, if any byte was written, carries the count of bytes
/// written; and a run that ends in success has the last progress message
/// carry every byte taken from the image, which is the size of the image
/// as it was opened where the image gave exactly that many bytes.
pub proof fn lemma_final_progress(job: WriteJobView, events: Seq<(WriteEventView, nat)>)
    requires
        job.wf(),
        job.written == 0,
        between_chunks(job),
        forall|k: int| 0 <= k < events.len() ==> fits((#[trigger] events[k]).0),
    ensures
        ({
            let end = write_run(job, events);
            let succeeded = end.1.len() > 0 && end.1.last() == MsgView::WriteFinished(Ok(()));
            &&& between_chunks(end.0) || succeeded ==> if end.0.written == 0 {
                last_progress(end.1) is None
            } else {
                last_progress(end.1) == Some(end.0.written)
            }
            &&& succeeded && end.0.read < u64::MAX ==> end.0.written == end.0.read
            &&& succeeded && end.0.read < u64::MAX && end.0.read == end.0.total ==> if end.0.total
                == 0 {
                last_progress(end.1) is None
            } else {
                last_progress(end.1) == Some(end.0.total)
            }
            &&& end.0.stage != WriteStage::Done ==> job.stage != WriteStage::Done
        }),
    decreases events.len(),
{
    if events.len() > 0 {
        let before = write_run(job, events.drop_last());
        assert forall|k: int| 0 <= k < events.drop_last().len() implies fits(
            (#[trigger] events.drop_last()[k]).0,
        ) by {
            assert(events.drop_last()[k] == events[k]);
        }
        assert(fits(events[events.len() - 1].0));
        lemma_final_progress(job, events.drop_last());
        lemma_write_run(job, events.drop_last());
        lemma_write_step(before.0, events.last().0, events.last().1);
        let step = before.0.step(events.last().0, events.last().1);
        let all = write_run(job, events).1;
        assert(all == before.1 + step.messages);
        if step.messages.len() == 0 {
            assert(all =~= before.1);
            if before.0.stage == WriteStage::Done {
                assert(step.job == before.0);
            }
        } else {
            assert(all =~= before.1.push(step.messages[0]));
            assert(all.drop_last() =~= before.1);
            assert(all.last() == step.messages[0]);
            if all.last() == MsgView::WriteFinished(Ok(())) {
                assert(step.messages.contains(MsgView::WriteFinished(Ok(()))));
                lemma_success_writes_all(before.0, events.last().0, events.last().1);
            }
        }
    }
}

/// No message.
fn nothing() -> (r: Vec<Msg>)
    ensures
        r.deep_view() == Seq::<MsgView>::empty(),
{
    let r: Vec<Msg> = Vec::new();
    assert(r.deep_view() =~= Seq::empty());
    r
}

/// The one message `m`.
fn only(m: Msg) -> (r: Vec<Msg>)
    ensures
        r.deep_view() == seq![m@],
{
    let r = vec![m];
    assert(r.deep_view() =~= seq![m@]);
    r
}

/// The text `what` followed by `why`.
fn joined_text(what: &str, why: &str) -> (r: String)
    ensures
        r@ == what@ + why@,
{
    let mut r = what.to_owned();
    r.append(why);
    r
}

impl WriteJob {
    #[verifier::type_invariant]
    spec fn inv(self) -> bool {
        self@.wf()
    }

    /// A job that has not begun, for the device at `device`.
    pub fn new(device: DevicePath) -> (r: Self)
        ensures
            r@ == fresh_write(device@),
            r@.wf(),
    {
        WriteJob {
            stage: WriteStage::Unmount,
            total: 0,
            read: 0,
            written: 0,
            chunk: 0,
            offset: 0,
            device,
        }
    }

    /// The action that the job waits to hear of.
    pub fn action(&self) -> (r: WriteAction)
        ensures
            r == self@.awaited(),
    {
        proof {
            use_type_invariant(self);
        }
        match self.stage {
            WriteStage::Unmount => WriteAction::Unmount,
            WriteStage::OpenSource => WriteAction::OpenSource,
            WriteStage::OpenDevice => WriteAction::OpenDevice,
            WriteStage::Read => WriteAction::Read,
            WriteStage::Write => WriteAction::Write { from: self.offset, to: self.chunk },
            WriteStage::Flush => WriteAction::Flush,
            WriteStage::Sync => WriteAction::Sync,
            WriteStage::Reread => WriteAction::RereadPartitions,
            WriteStage::Done => WriteAction::Finish,
        }
    }

    /// Whether the job is over.
    pub fn is_done(&self) -> (r: bool)
        ensures
            r == (self@.stage == WriteStage::Done),
    {
        self.stage == WriteStage::Done
    }

    /// Bytes put on the device so far.
    pub fn written(&self) -> (r: u64)
        ensures
            r == self@.written,
    {
        self.written
    }

    /// The size of the image when it was opened.
    pub fn total(&self) -> (r: u64)
        ensures
            r == self@.total,
    {
        self.total
    }

    fn advanced(self, stage: WriteStage) -> (r: (WriteJob, WriteAction, Vec<Msg>))
        requires
            self@.stage != WriteStage::Write,
            self@.stage != WriteStage::Done,
            stage != WriteStage::Write,
        ensures
            r.0@ == self@.advance(stage).job,
            r.1 == self@.advance(stage).action,
            r.2.deep_view() == self@.advance(stage).messages,
    {
        proof {
            use_type_invariant(&self);
        }
        let job = WriteJob { stage, ..self };
        let action = job.action();
        (job, action, nothing())
    }

    fn failed(self, what: &str, why: &str) -> (r: (WriteJob, WriteAction, Vec<Msg>))
        ensures
            r.0@ == self@.fail(what@, why@).job,
            r.1 == self@.fail(what@, why@).action,
            r.2.deep_view() == self@.fail(what@, why@).messages,
    {
        proof {
            use_type_invariant(&self);
        }
        let job = WriteJob { stage: WriteStage::Done, ..self };
        (job, WriteAction::Finish, only(Msg::WriteFinished(Err(joined_text(what, why)))))
    }

    fn wrote(self, n: usize, elapsed_micros: u64) -> (r: (WriteJob, WriteAction, Vec<Msg>))
        requires
            self@.stage == WriteStage::Write,
        ensures
            r.0@ == self@.wrote(n as nat, elapsed_micros as nat).job,
            r.1 == self@.wrote(n as nat, elapsed_micros as nat).action,
            r.2.deep_view() == self@.wrote(n as nat, elapsed_micros as nat).messages,
    {
        proof {
            use_type_invariant(&self);
        }
        if n == 0 {
            return self.failed("Write error: ", "failed to write whole buffer");
        }
        let left = self.chunk - self.offset;
        let taken = if n > left {
            left
        } else {
            n
        };
        let written = if taken as u64 > u64::MAX - self.written {
            u64::MAX
        } else {
            self.written + taken as u64
        };
        if self.offset + taken == self.chunk {
            let total = self.total;
            let job = WriteJob { stage: WriteStage::Read, written, chunk: 0, offset: 0, ..self };
            let bps = throughput_bps(written, elapsed_micros);
            (job, WriteAction::Read, only(Msg::WriteProgress { written, total, bps }))
        } else {
            let job = WriteJob { written, offset: self.offset + taken, ..self };
            let action = job.action();
            (job, action, nothing())
        }
    }

    /// Takes what came of the awaited action, `elapsed_micros`
    /// microseconds into the copy, and gives the job after it, the next
    /// action and the messages to report. The job stays consistent.
    pub fn step(self, event: WriteEvent, elapsed_micros: u64) -> (r: (
        WriteJob,
        WriteAction,
        Vec<Msg>,
    ))
        ensures
            self@.wf(),
            r.0@.wf(),
            r.0@ == self@.step(event@, elapsed_micros as nat).job,
            r.1 == self@.step(event@, elapsed_micros as nat).action,
            r.2.deep_view() == self@.step(event@, elapsed_micros as nat).messages,
    {
        proof {
            use_type_invariant(&self);
        }
        let r = match (self.stage, event) {
            (WriteStage::Unmount, WriteEvent::Unmounted) => self.advanced(WriteStage::OpenSource),
            (WriteStage::OpenSource, WriteEvent::SourceOpened { total }) => {
                let job = WriteJob { stage: WriteStage::OpenDevice, total, ..self };
                (job, WriteAction::OpenDevice, only(Msg::WriteStarted { total }))
            },
            (WriteStage::OpenSource, WriteEvent::SourceOpenFailed(e)) => self.failed(
                "Failed to open ISO: ",
                e.as_str(),
            ),
            (WriteStage::OpenSource, WriteEvent::SourceStatFailed(e)) => self.failed(
                "Failed to stat ISO: ",
                e.as_str(),
            ),
            (WriteStage::OpenDevice, WriteEvent::DeviceOpened) => self.advanced(WriteStage::Read),
            (WriteStage::OpenDevice, WriteEvent::DeviceOpenFailed(e)) => {
                let mut what = joined_text("Failed to open device ", self.device.as_path());
                what.append(": ");
                self.failed(what.as_str(), e.as_str())
            },
            (WriteStage::Read, WriteEvent::ReadDone { n }) => {
                if n == 0 {
                    self.advanced(WriteStage::Flush)
                } else {
                    let read = if n as u64 > u64::MAX - self.read {
                        u64::MAX
                    } else {
                        self.read + n as u64
                    };
                    let job = WriteJob {
                        stage: WriteStage::Write,
                        read,
                        chunk: n,
                        offset: 0,
                        ..self
                    };
                    let action = job.action();
                    (job, action, nothing())
                }
            },
            (WriteStage::Read, WriteEvent::ReadFailed(e)) => self.failed(
                "Read error: ",
                e.as_str(),
            ),
            (WriteStage::Write, WriteEvent::Wrote { n }) => self.wrote(n, elapsed_micros),
            (WriteStage::Write, WriteEvent::WriteFailed(e)) => self.failed(
                "Write error: ",
                e.as_str(),
            ),
            (WriteStage::Flush, WriteEvent::Flushed) => self.advanced(WriteStage::Sync),
            (WriteStage::Flush, WriteEvent::FlushFailed(e)) => self.failed(
                "Flush error: ",
                e.as_str(),
            ),
            (WriteStage::Sync, WriteEvent::Synced) => self.advanced(WriteStage::Reread),
            (WriteStage::Sync, WriteEvent::SyncFailed(e)) => self.failed(
                "sync_all error: ",
                e.as_str(),
            ),
            (WriteStage::Reread, WriteEvent::Reread) => {
                let job = WriteJob { stage: WriteStage::Done, ..self };
                (job, WriteAction::Finish, only(Msg::WriteFinished(Ok(()))))
            },
            (_, _) => {
                let action = self.action();
                (self, action, nothing())
            },
        };
        proof {
            use_type_invariant(&r.0);
        }
        r
    }
}

/// Where a verify job stands.
#[derive(Debug, Clone, Copy, PartialEq, Eq, Structural)]
pub enum VerifyStage {
    OpenSource,
    OpenDevice,
    Read,
    Done,
}

/// What the driver of a verify job has to do next.
#[derive(Debug, Clone, Copy, PartialEq, Eq, Structural)]
pub enum VerifyAction {
    /// Open the image for reading.
    OpenSource,
    /// Open the device for reading.
    OpenDevice,
    /// Read exactly `len` bytes from the image, then exactly `len` bytes
    /// from the device. Fewer is a failure of the read.
    Read { len: usize },
    /// Nothing: the job is over.
    Finish,
}

/// What a [`VerifyEvent`] stands for.
pub enum VerifyEventView {
    SourceOpened,
    SourceOpenFailed(Seq<char>),
    DeviceOpened,
    DeviceOpenFailed(Seq<char>),
    ChunksRead { source: Seq<u8>, device: Seq<u8> },
    SourceReadFailed(Seq<char>),
    DeviceReadFailed(Seq<char>),
}

/// What came of the last action of a verify job. A failure carries the
/// system's own words for it.
#[derive(Debug)]
pub enum VerifyEvent<'a> {
    SourceOpened,
    SourceOpenFailed(String),
    DeviceOpened,
    DeviceOpenFailed(String),
    /// Both reads gave the bytes asked for.
    ChunksRead { source: &'a [u8], device: &'a [u8] },
    SourceReadFailed(String),
    DeviceReadFailed(String),
}

impl<'a> View for VerifyEvent<'a> {
    type V = VerifyEventView;

    open spec fn view(&self) -> VerifyEventView {
        match *self {
            VerifyEvent::SourceOpened => VerifyEventView::SourceOpened,
            VerifyEvent::SourceOpenFailed(e) => VerifyEventView::SourceOpenFailed(e@),
            VerifyEvent::DeviceOpened => VerifyEventView::DeviceOpened,
            VerifyEvent::DeviceOpenFailed(e) => VerifyEventView::DeviceOpenFailed(e@),
            VerifyEvent::ChunksRead { source, device } => VerifyEventView::ChunksRead {
                source: source@,
                device: device@,
            },
            VerifyEvent::SourceReadFailed(e) => VerifyEventView::SourceReadFailed(e@),
            VerifyEvent::DeviceReadFailed(e) => VerifyEventView::DeviceReadFailed(e@),
        }
    }
}

/// What a [`VerifyJob`] stands for.
pub struct VerifyJobView {
    pub stage: VerifyStage,
    /// How many bytes are to be compared.
    pub size: nat,
    /// How many have been compared and found equal.
    pub checked: nat,
}

/// One comparison of an image with what a device holds.
#[derive(Debug)]
pub struct VerifyJob {
    stage: VerifyStage,
    size: u64,
    checked: u64,
}

impl View for VerifyJob {
    type V = VerifyJobView;

    closed spec fn view(&self) -> VerifyJobView {
        VerifyJobView {
            stage: self.stage,
            size: self.size as nat,
            checked: self.checked as nat,
        }
    }
}

/// What a step of a verify job gives: the job after it, what to do next,
/// and the messages to report, in order.
pub struct VerifyStep {
    pub job: VerifyJobView,
    pub action: VerifyAction,
    pub messages: Seq<MsgView>,
}

/// The length of the next chunk when `left` bytes are left to compare.
pub open spec fn next_len(left: nat) -> nat {
    if left > CHUNK_SIZE {
        CHUNK_SIZE as nat
    } else {
        left
    }
}

/// The text reported when image and device differ.
pub open spec fn mismatch_text() -> Seq<char> {
    "Mismatch between ISO and device"@
}

/// A job that has not begun, to compare `size` bytes.
pub open spec fn fresh_verify(size: nat) -> VerifyJobView {
    VerifyJobView { stage: VerifyStage::OpenSource, size, checked: 0 }
}

impl VerifyJobView {
    /// The job is consistent: it has not compared more than it was asked
    /// to, and while it reads there is something left to compare.
    pub open spec fn wf(self) -> bool {
        &&& self.checked <= self.size <= u64::MAX
        &&& self.stage == VerifyStage::Read ==> self.checked < self.size
    }

    /// The action that the job waits to hear of.
    pub open spec fn awaited(self) -> VerifyAction {
        match self.stage {
            VerifyStage::OpenSource => VerifyAction::OpenSource,
            VerifyStage::OpenDevice => VerifyAction::OpenDevice,
            VerifyStage::Read => VerifyAction::Read {
                len: next_len((self.size - self.checked) as nat) as usize,
            },
            VerifyStage::Done => VerifyAction::Finish,
        }
    }

    /// The job ended in failure with the message `text`.
    pub open spec fn fail(self, text: Seq<char>) -> VerifyStep {
        VerifyStep {
            job: VerifyJobView { stage: VerifyStage::Done, ..self },
            action: VerifyAction::Finish,
            messages: seq![MsgView::VerifyFinished(Err(text))],
        }
    }

    /// The job as both ends are open: the start is reported, and with
    /// nothing to compare the job ends well at once.
    pub open spec fn opened(self) -> VerifyStep {
        if self.checked < self.size {
            let job = VerifyJobView { stage: VerifyStage::Read, ..self };
            VerifyStep {
                job,
                action: job.awaited(),
                messages: seq![MsgView::VerifyStarted { total: self.size }],
            }
        } else {
            VerifyStep {
                job: VerifyJobView { stage: VerifyStage::Done, ..self },
                action: VerifyAction::Finish,
                messages: seq![
                    MsgView::VerifyStarted { total: self.size },
                    MsgView::VerifyFinished(Ok(())),
                ],
            }
        }
    }

    /// The job after a chunk from each end. Chunks that differ end the
    /// job with the mismatch and no progress; chunks that agree are
    /// counted and reported, and with the last of them the job ends well.
    pub open spec fn compared(self, source: Seq<u8>, device: Seq<u8>, elapsed_micros: nat)
        -> VerifyStep {
        if source != device {
            self.fail(mismatch_text())
        } else {
            let checked = self.checked + source.len();
            let progress = MsgView::VerifyProgress {
                checked,
                total: self.size,
                bps: throughput(checked, elapsed_micros),
            };
            if checked >= self.size {
                VerifyStep {
                    job: VerifyJobView { stage: VerifyStage::Done, checked, ..self },
                    action: VerifyAction::Finish,
                    messages: seq![progress, MsgView::VerifyFinished(Ok(()))],
                }
            } else {
                let job = VerifyJobView { checked, ..self };
                VerifyStep { job, action: job.awaited(), messages: seq![progress] }
            }
        }
    }

    /// The step that `event` makes, when it arrives `elapsed_micros`
    /// microseconds into the comparison. An event that does not answer
    /// the awaited action, or chunks of another length than asked for,
    /// change nothing.
    pub open spec fn step(self, event: VerifyEventView, elapsed_micros: nat) -> VerifyStep {
        match (self.stage, event) {
            (VerifyStage::OpenSource, VerifyEventView::SourceOpened) => {
                let job = VerifyJobView { stage: VerifyStage::OpenDevice, ..self };
                VerifyStep { job, action: VerifyAction::OpenDevice, messages: Seq::empty() }
            },
            (VerifyStage::OpenSource, VerifyEventView::SourceOpenFailed(e)) => self.fail(
                "Failed to open ISO for verify: "@ + e,
            ),
            (VerifyStage::OpenDevice, VerifyEventView::DeviceOpened) => self.opened(),
            (VerifyStage::OpenDevice, VerifyEventView::DeviceOpenFailed(e)) => self.fail(
                "Failed to open device for verify: "@ + e,
            ),
            (VerifyStage::Read, VerifyEventView::ChunksRead { source, device }) => if source.len()
                == next_len((self.size - self.checked) as nat) && device.len() == source.len() {
                self.compared(source, device, elapsed_micros)
            } else {
                VerifyStep { job: self, action: self.awaited(), messages: Seq::empty() }
            },
            (VerifyStage::Read, VerifyEventView::SourceReadFailed(e)) => self.fail(
                "ISO read error during verify: "@ + e,
            ),
            (VerifyStage::Read, VerifyEventView::DeviceReadFailed(e)) => self.fail(
                "Device read error during verify: "@ + e,
            ),
            _ => VerifyStep { job: self, action: self.awaited(), messages: Seq::empty() },
        }
    }
}

/// A step keeps the job consistent and never lowers the count of bytes
/// compared. Progress is reported only for chunks that agreed, with the
/// new count, which never passes the size; an end is reported exactly
/// when the job ends, as the last message of the step; and a job that
/// has ended reports nothing more.
pub proof fn lemma_verify_step(job: VerifyJobView, event: VerifyEventView, elapsed_micros: nat)
    requires
        job.wf(),
    ensures
        job.step(event, elapsed_micros).job.wf(),
        job.step(event, elapsed_micros).job.size == job.size,
        job.checked <= job.step(event, elapsed_micros).job.checked,
        forall|i: int|
            0 <= i < job.step(event, elapsed_micros).messages.len() ==> match #[trigger] job.step(
                event,
                elapsed_micros,
            ).messages[i] {
                MsgView::VerifyProgress { checked, total, .. } => checked == job.step(
                    event,
                    elapsed_micros,
                ).job.checked && total == job.size && job.checked < checked <= total,
                MsgView::VerifyStarted { total } => total == job.size && i == 0,
                MsgView::VerifyFinished(_) => i == job.step(event, elapsed_micros).messages.len()
                    - 1 && job.stage != VerifyStage::Done && job.step(
                    event,
                    elapsed_micros,
                ).job.stage == VerifyStage::Done,
                _ => false,
            },
        job.stage == VerifyStage::Done ==> job.step(event, elapsed_micros).job == job && job.step(
            event,
            elapsed_micros,
        ).messages.len() == 0,
        job.step(event, elapsed_micros).job.stage == VerifyStage::Done && job.stage
            != VerifyStage::Done ==> job.step(event, elapsed_micros).messages.len() >= 1
            && job.step(event, elapsed_micros).messages.last() is VerifyFinished,
{
}

/// What a reading job makes of an image holding `source` and a device
/// holding `device`, when it is handed chunk after chunk of the two:
/// the job at the end and all messages reported. `clock` gives the time
/// at which the chunk behind each count of bytes arrives.
pub open spec fn verify_run(
    job: VerifyJobView,
    source: Seq<u8>,
    device: Seq<u8>,
    clock: spec_fn(nat) -> nat,
) -> (VerifyJobView, Seq<MsgView>)
    decreases job.size - job.checked,
{
    if job.stage == VerifyStage::Read && job.checked < job.size {
        let len = next_len((job.size - job.checked) as nat);
        let step = job.step(
            VerifyEventView::ChunksRead {
                source: source.subrange(job.checked as int, (job.checked + len) as int),
                device: device.subrange(job.checked as int, (job.checked + len) as int),
            },
            clock(job.checked),
        );
        if step.job.stage == VerifyStage::Read && step.job.checked > job.checked && step.job.size
            == job.size {
            let rest = verify_run(step.job, source, device, clock);
            (rest.0, step.messages + rest.1)
        } else {
            (step.job, step.messages)
        }
    } else {
        (job, Seq::empty())
    }
}

/// Where image and device hold the same bytes, the comparison ends well:
/// the last message is the good end, all before it are progress, and the
/// last progress counts every byte.
pub proof fn lemma_identical_verifies(
    job: VerifyJobView,
    source: Seq<u8>,
    device: Seq<u8>,
    clock: spec_fn(nat) -> nat,
)
    requires
        job.wf(),
        job.stage == VerifyStage::Read,
        job.size <= source.len(),
        job.size <= device.len(),
        source.subrange(0, job.size as int) == device.subrange(0, job.size as int),
    ensures
        ({
            let end = verify_run(job, source, device, clock);
            &&& end.0.stage == VerifyStage::Done
            &&& end.0.checked == job.size
            &&& end.1.len() >= 2
            &&& end.1.last() == MsgView::VerifyFinished(Ok(()))
            &&& end.1[end.1.len() - 2] matches MsgView::VerifyProgress { checked, total, .. }
                && checked == job.size && total == job.size
            &&& forall|i: int|
                0 <= i < end.1.len() - 1 ==> (#[trigger] end.1[i] matches MsgView::VerifyProgress {
                    checked,
                    ..
                } && job.checked < checked <= job.size)
        }),
    decreases job.size - job.checked,
{
    let len = next_len((job.size - job.checked) as nat);
    let a = source.subrange(job.checked as int, (job.checked + len) as int);
    let b = device.subrange(job.checked as int, (job.checked + len) as int);
    assert(a =~= b) by {
        assert(a.len() == len && b.len() == len);
        assert forall|k: int| 0 <= k < len implies a[k] == b[k] by {
            let whole_a = source.subrange(0, job.size as int);
            let whole_b = device.subrange(0, job.size as int);
            assert(whole_a[job.checked + k] == source[job.checked + k]);
            assert(whole_b[job.checked + k] == device[job.checked + k]);
            assert(a[k] == source[job.checked + k]);
            assert(b[k] == device[job.checked + k]);
        }
    }
    let step = job.step(
        VerifyEventView::ChunksRead { source: a, device: b },
        clock(job.checked),
    );
    if step.job.stage == VerifyStage::Read {
        lemma_identical_verifies(step.job, source, device, clock);
        let rest = verify_run(step.job, source, device, clock);
        let all = step.messages + rest.1;
        assert(all.last() == rest.1.last());
        assert(all[all.len() - 2] == rest.1[rest.1.len() - 2]);
        assert forall|i: int| 0 <= i < all.len() - 1 implies (
        #[trigger] all[i] matches MsgView::VerifyProgress { checked, .. } && job.checked < checked
            <= job.size) by {
            if i >= 1 {
                assert(all[i] == rest.1[i - 1]);
            }
        }
    }
}

/// Where image and device differ in a byte, the comparison ends with the
/// mismatch: it is the last message, all before it are progress over
/// bytes that lie before the differing one, and none follows it.
pub proof fn lemma_difference_is_found(
    job: VerifyJobView,
    source: Seq<u8>,
    device: Seq<u8>,
    clock: spec_fn(nat) -> nat,
    at: int,
)
    requires
        job.wf(),
        job.stage == VerifyStage::Read,
        job.size <= source.len(),
        job.size <= device.len(),
        job.checked <= at < job.size,
        source[at] != device[at],
    ensures
        ({
            let end = verify_run(job, source, device, clock);
            &&& end.0.stage == VerifyStage::Done
            &&& end.1.len() >= 1
            &&& end.1.last() == MsgView::VerifyFinished(Err(mismatch_text()))
            &&& forall|i: int|
                0 <= i < end.1.len() - 1 ==> (#[trigger] end.1[i] matches MsgView::VerifyProgress {
                    checked,
                    ..
                } && checked <= at)
        }),
    decreases job.size - job.checked,
{
    let len = next_len((job.size - job.checked) as nat);
    let a = source.subrange(job.checked as int, (job.checked + len) as int);
    let b = device.subrange(job.checked as int, (job.checked + len) as int);
    let step = job.step(
        VerifyEventView::ChunksRead { source: a, device: b },
        clock(job.checked),
    );
    if at < job.checked + len {
        assert(a[at - job.checked] != b[at - job.checked]);
        assert(a != b);
    } else if a == b {
        lemma_difference_is_found(step.job, source, device, clock, at);
        let rest = verify_run(step.job, source, device, clock);
        let all = step.messages + rest.1;
        assert(all.last() == rest.1.last());
        assert forall|i: int| 0 <= i < all.len() - 1 implies (
        #[trigger] all[i] matches MsgView::VerifyProgress { checked, .. } && checked <= at) by {
            if i >= 1 {
                assert(all[i] == rest.1[i - 1]);
            }
        }
    }
}

/// Whether two runs of bytes are the same.
pub fn same_bytes(a: &[u8], b: &[u8]) -> (r: bool)
    ensures
        r == (a@ == b@),
{
    if a.len() != b.len() {
        return false;
    }
    let mut i: usize = 0;
    while i < a.len()
        invariant
            a@.len() == b@.len(),
            i <= a@.len(),
            forall|k: int| 0 <= k < i ==> a@[k] == b@[k],
        decreases a@.len() - i,
    {
        if a[i] != b[i] {
            return false;
        }
        i += 1;
    }
    assert(a@ =~= b@);
    true
}

/// The two messages `first` and `second`.
fn pair(first: Msg, second: Msg) -> (r: Vec<Msg>)
    ensures
        r.deep_view() == seq![first@, second@],
{
    let r = vec![first, second];
    assert(r.deep_view() =~= seq![first@, second@]);
    r
}

impl VerifyJob {
    #[verifier::type_invariant]
    spec fn inv(self) -> bool {
        self@.wf()
    }

    /// A job that has not begun, to compare `size` bytes.
    pub fn new(size: u64) -> (r: Self)
        ensures
            r@ == fresh_verify(size as nat),
            r@.wf(),
    {
        VerifyJob { stage: VerifyStage::OpenSource, size, checked: 0 }
    }

    /// The action that the job waits to hear of.
    pub fn action(&self) -> (r: VerifyAction)
        ensures
            r == self@.awaited(),
    {
        proof {
            use_type_invariant(self);
        }
        match self.stage {
            VerifyStage::OpenSource => VerifyAction::OpenSource,
            VerifyStage::OpenDevice => VerifyAction::OpenDevice,
            VerifyStage::Read => VerifyAction::Read { len: self.chunk_len() },
            VerifyStage::Done => VerifyAction::Finish,
        }
    }

    /// Whether the job is over.
    pub fn is_done(&self) -> (r: bool)
        ensures
            r == (self@.stage == VerifyStage::Done),
    {
        self.stage == VerifyStage::Done
    }

    /// How many bytes have been compared and found equal.
    pub fn checked(&self) -> (r: u64)
        ensures
            r == self@.checked,
    {
        self.checked
    }

    fn chunk_len(&self) -> (r: usize)
        ensures
            r == next_len((self@.size - self@.checked) as nat),
    {
        proof {
            use_type_invariant(self);
        }
        let left = self.size - self.checked;
        if left > CHUNK_SIZE as u64 {
            CHUNK_SIZE
        } else {
            left as usize
        }
    }

    fn failed(self, text: String) -> (r: (VerifyJob, VerifyAction, Vec<Msg>))
        ensures
            r.0@ == self@.fail(text@).job,
            r.1 == self@.fail(text@).action,
            r.2.deep_view() == self@.fail(text@).messages,
    {
        proof {
            use_type_invariant(&self);
        }
        let job = VerifyJob { stage: VerifyStage::Done, ..self };
        (job, VerifyAction::Finish, only(Msg::VerifyFinished(Err(text))))
    }

    fn opened(self) -> (r: (VerifyJob, VerifyAction, Vec<Msg>))
        ensures
            r.0@ == self@.opened().job,
            r.1 == self@.opened().action,
            r.2.deep_view() == self@.opened().messages,
    {
        proof {
            use_type_invariant(&self);
        }
        let total = self.size;
        if self.checked < self.size {
            let job = VerifyJob { stage: VerifyStage::Read, ..self };
            let action = job.action();
            (job, action, only(Msg::VerifyStarted { total }))
        } else {
            let job = VerifyJob { stage: VerifyStage::Done, ..self };
            (
                job,
                VerifyAction::Finish,
                pair(Msg::VerifyStarted { total }, Msg::VerifyFinished(Ok(()))),
            )
        }
    }

    fn compared(self, source: &[u8], device: &[u8], elapsed_micros: u64) -> (r: (
        VerifyJob,
        VerifyAction,
        Vec<Msg>,
    ))
        requires
            self@.stage == VerifyStage::Read,
            source@.len() == next_len((self@.size - self@.checked) as nat),
        ensures
            r.0@ == self@.compared(source@, device@, elapsed_micros as nat).job,
            r.1 == self@.compared(source@, device@, elapsed_micros as nat).action,
            r.2.deep_view() == self@.compared(source@, device@, elapsed_micros as nat).messages,
    {
        proof {
            use_type_invariant(&self);
        }
        if !same_bytes(source, device) {
            proof {
                reveal_strlit("Mismatch between ISO and device");
            }
            return self.failed("Mismatch between ISO and device".to_owned());
        }
        let checked = self.checked + source.len() as u64;
        let total = self.size;
        let bps = throughput_bps(checked, elapsed_micros);
        let progress = Msg::VerifyProgress { checked, total, bps };
        if checked >= self.size {
            let job = VerifyJob { stage: VerifyStage::Done, checked, ..self };
            (job, VerifyAction::Finish, pair(progress, Msg::VerifyFinished(Ok(()))))
        } else {
            let job = VerifyJob { checked, ..self };
            let action = job.action();
            (job, action, only(progress))
        }
    }

    /// Takes what came of the awaited action, `elapsed_micros`
    /// microseconds into the comparison, and gives the job after it, the
    /// next action and the messages to report. The job stays consistent.
    pub fn step(self, event: VerifyEvent<'_>, elapsed_micros: u64) -> (r: (
        VerifyJob,
        VerifyAction,
        Vec<Msg>,
    ))
        ensures
            self@.wf(),
            r.0@.wf(),
            r.0@ == self@.step(event@, elapsed_micros as nat).job,
            r.1 == self@.step(event@, elapsed_micros as nat).action,
            r.2.deep_view() == self@.step(event@, elapsed_micros as nat).messages,
    {
        proof {
            use_type_invariant(&self);
        }
        let r = match (self.stage, event) {
            (VerifyStage::OpenSource, VerifyEvent::SourceOpened) => {
                let job = VerifyJob { stage: VerifyStage::OpenDevice, ..self };
                (job, VerifyAction::OpenDevice, nothing())
            },
            (VerifyStage::OpenSource, VerifyEvent::SourceOpenFailed(e)) => self.failed(
                joined_text("Failed to open ISO for verify: ", e.as_str()),
            ),
            (VerifyStage::OpenDevice, VerifyEvent::DeviceOpened) => self.opened(),
            (VerifyStage::OpenDevice, VerifyEvent::DeviceOpenFailed(e)) => self.failed(
                joined_text("Failed to open device for verify: ", e.as_str()),
            ),
            (VerifyStage::Read, VerifyEvent::ChunksRead { source, device }) => {
                if source.len() == self.chunk_len() && device.len() == source.len() {
                    self.compared(source, device, elapsed_micros)
                } else {
                    let action = self.action();
                    (self, action, nothing())
                }
            },
            (VerifyStage::Read, VerifyEvent::SourceReadFailed(e)) => self.failed(
                joined_text("ISO read error during verify: ", e.as_str()),
            ),
            (VerifyStage::Read, VerifyEvent::DeviceReadFailed(e)) => self.failed(
                joined_text("Device read error during verify: ", e.as_str()),
            ),
            (_, _) => {
                let action = self.action();
                (self, action, nothing())
            },
        };
        proof {
            use_type_invariant(&r.0);
        }
        r
    }
}

} // verus!
