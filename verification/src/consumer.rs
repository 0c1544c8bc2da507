//! The two consumers of the server's channels.
//!
//! Each consumer owns the receive half of one channel for as long as it
//! lives. The push consumer reports every further server description and
//! stops at a disconnect message. The diff consumer looks at no payload: it
//! records the size of each frame and reports its progress at intervals.
//! An error on one channel stops the consumer of that channel only.

use crate::frame::{after_frame, all_fit, frame, frame_head, frames, lemma_head_of_frame, FrameHead};
use crate::proto::{
    decode_server_push, lemma_server_push_roundtrip, server_push_bytes, ServerInfo,
    ServerInfoView, ServerPush, ServerPushView,
};
use crate::size_histogram::{recorded, recorded_all, summary_text, SizeHistogram, BUCKETS};
use crate::stream::{FramedRecvStream, RawFramedRecvStream, Received, RecvError};
use vstd::prelude::*;

verus! {

broadcast use crate::wire::lemma_be32_len;

/// Number of frames between two progress reports of the diff consumer.
pub const REPORT_EVERY: usize = 300;

/// Why the push consumer stopped.
#[derive(Clone, Copy, Debug, PartialEq, Eq)]
pub enum PushStop {
    /// The server sent a disconnect message.
    Disconnected,
    /// The channel ended.
    Ended,
    /// The channel failed.
    Failed(RecvError),
    /// The consumer was told to stop.
    Cancelled,
}

/// One step of the push consumer.
#[derive(Clone, Debug, PartialEq, Eq)]
pub enum PushStep {
    /// The server described itself once more; the consumer goes on.
    Report(ServerInfo),
    /// The next frame has not arrived in full.
    Waiting,
    /// The consumer has stopped.
    Stopped(PushStop),
}

/// Why the diff consumer stopped.
#[derive(Clone, Copy, Debug, PartialEq, Eq)]
pub enum DiffStop {
    /// The channel ended.
    Ended,
    /// The channel failed.
    Failed(RecvError),
    /// The consumer was told to stop.
    Cancelled,
}

/// A progress report of the diff consumer.
#[derive(Clone, Debug, PartialEq, Eq)]
pub struct Progress {
    /// Number of frames received so far.
    pub frames: usize,
    /// Summary of the sizes received so far.
    pub summary: String,
}

/// One step of the diff consumer.
#[derive(Clone, Debug, PartialEq, Eq)]
pub enum DiffStep {
    /// A frame was counted; with a report where one is due.
    Counted(Option<Progress>),
    /// The next frame has not arrived in full.
    Waiting,
    /// The consumer has stopped.
    Stopped(DiffStop),
}

/// A `PushStep` as a mathematical value.
pub enum PushOutcome {
    Report(ServerInfoView),
    Waiting,
    Stopped(PushStop),
}

/// A `Progress` as a mathematical value.
pub struct ProgressView {
    pub frames: nat,
    pub summary: Seq<char>,
}

/// A `DiffStep` as a mathematical value.
pub enum DiffOutcome {
    Counted(Option<ProgressView>),
    Waiting,
    Stopped(DiffStop),
}

impl View for PushStep {
    type V = PushOutcome;

    open spec fn view(&self) -> PushOutcome {
        match self {
            PushStep::Report(info) => PushOutcome::Report(info@),
            PushStep::Waiting => PushOutcome::Waiting,
            PushStep::Stopped(cause) => PushOutcome::Stopped(*cause),
        }
    }
}

impl View for Progress {
    type V = ProgressView;

    open spec fn view(&self) -> ProgressView {
        ProgressView { frames: self.frames as nat, summary: self.summary@ }
    }
}

impl View for DiffStep {
    type V = DiffOutcome;

    open spec fn view(&self) -> DiffOutcome {
        match self {
            DiffStep::Counted(Some(progress)) => DiffOutcome::Counted(Some(progress@)),
            DiffStep::Counted(None) => DiffOutcome::Counted(None),
            DiffStep::Waiting => DiffOutcome::Waiting,
            DiffStep::Stopped(cause) => DiffOutcome::Stopped(*cause),
        }
    }
}

/// The server descriptions of a list.
pub open spec fn infos_of(list: Seq<ServerInfo>) -> Seq<ServerInfoView> {
    Seq::new(list.len(), |i: int| list[i]@)
}

/// The progress reports of a list.
pub open spec fn reports_of(list: Seq<Progress>) -> Seq<ProgressView> {
    Seq::new(list.len(), |i: int| list[i]@)
}

/// The next step of a push consumer that has not stopped, given the bytes
/// it has not consumed and whether the end of the channel was announced.
pub open spec fn push_outcome(unread: Seq<u8>, finished: bool) -> PushOutcome {
    match frame_head(unread) {
        FrameHead::Complete { payload, rest } => match decode_server_push(payload) {
            Some(ServerPushView::ServerInfo(info)) => PushOutcome::Report(info),
            Some(ServerPushView::Disconnect) => PushOutcome::Stopped(PushStop::Disconnected),
            None => PushOutcome::Stopped(PushStop::Failed(RecvError::Malformed)),
        },
        FrameHead::Incomplete => if finished {
            PushOutcome::Stopped(PushStop::Ended)
        } else {
            PushOutcome::Waiting
        },
        FrameHead::TooLong => PushOutcome::Stopped(PushStop::Failed(RecvError::FrameTooLong)),
    }
}

/// Whether a report is due when `frames` frames were counted.
pub open spec fn report_due(frames: nat) -> bool {
    frames % (REPORT_EVERY as nat) == 0
}

/// The next step of a diff consumer that has not stopped, given the counts
/// of its histogram, the number of frames it has counted, the bytes it has
/// not consumed and whether the end of the channel was announced.
pub open spec fn diff_outcome(counts: Seq<nat>, frames: nat, unread: Seq<u8>, finished: bool)
    -> DiffOutcome {
    match frame_head(unread) {
        FrameHead::Complete { payload, rest } => DiffOutcome::Counted(
            if report_due(frames + 1) {
                Some(
                    ProgressView {
                        frames: frames + 1,
                        summary: summary_text(recorded(counts, payload.len()), BUCKETS as nat),
                    },
                )
            } else {
                None
            },
        ),
        FrameHead::Incomplete => if finished {
            DiffOutcome::Stopped(DiffStop::Ended)
        } else {
            DiffOutcome::Waiting
        },
        FrameHead::TooLong => DiffOutcome::Stopped(DiffStop::Failed(RecvError::FrameTooLong)),
    }
}

/// The counts of a histogram once the whole frame at the front of `unread`,
/// if there is one, is counted.
pub open spec fn counted(counts: Seq<nat>, unread: Seq<u8>) -> Seq<nat> {
    match frame_head(unread) {
        FrameHead::Complete { payload, rest } => recorded(counts, payload.len()),
        _ => counts,
    }
}

/// What a push consumer that has not stopped makes of the bytes it holds,
/// step by step until it has to wait or stops.
pub struct PushRun {
    /// The server descriptions that it reports, in order.
    pub reports: Seq<ServerInfoView>,
    /// Why it has stopped, if it has.
    pub stopped: Option<PushStop>,
    /// The bytes that it has not consumed.
    pub unread: Seq<u8>,
}

/// What a diff consumer that has not stopped makes of the bytes it holds,
/// step by step until it has to wait or stops.
pub struct DiffRun {
    /// The counts of its histogram.
    pub counts: Seq<nat>,
    /// The number of frames it has counted.
    pub frames: nat,
    /// The progress reports that it makes, in order.
    pub reports: Seq<ProgressView>,
    /// Why it has stopped, if it has.
    pub stopped: Option<DiffStop>,
    /// The bytes that it has not consumed.
    pub unread: Seq<u8>,
}

/// Runs a push consumer that has not stopped over `unread`.
pub open spec fn push_run(unread: Seq<u8>, finished: bool) -> PushRun
    decreases unread.len(),
{
    match frame_head(unread) {
        FrameHead::Complete { payload, rest } => match decode_server_push(payload) {
            Some(ServerPushView::ServerInfo(info)) => {
                let tail = push_run(rest, finished);
                PushRun {
                    reports: seq![info] + tail.reports,
                    stopped: tail.stopped,
                    unread: tail.unread,
                }
            },
            Some(ServerPushView::Disconnect) => PushRun {
                reports: Seq::empty(),
                stopped: Some(PushStop::Disconnected),
                unread: rest,
            },
            None => PushRun {
                reports: Seq::empty(),
                stopped: Some(PushStop::Failed(RecvError::Malformed)),
                unread: rest,
            },
        },
        FrameHead::Incomplete => PushRun {
            reports: Seq::empty(),
            stopped: if finished {
                Some(PushStop::Ended)
            } else {
                None
            },
            unread,
        },
        FrameHead::TooLong => PushRun {
            reports: Seq::empty(),
            stopped: Some(PushStop::Failed(RecvError::FrameTooLong)),
            unread,
        },
    }
}

/// Runs a diff consumer that has not stopped, with these counts and this
/// number of frames counted, over `unread`.
pub open spec fn diff_run(counts: Seq<nat>, frames: nat, unread: Seq<u8>, finished: bool)
    -> DiffRun
    decreases unread.len(),
{
    match frame_head(unread) {
        FrameHead::Complete { payload, rest } => {
            let tail = diff_run(recorded(counts, payload.len()), frames + 1, rest, finished);
            match diff_outcome(counts, frames, unread, finished) {
                DiffOutcome::Counted(Some(progress)) => DiffRun {
                    counts: tail.counts,
                    frames: tail.frames,
                    reports: seq![progress] + tail.reports,
                    stopped: tail.stopped,
                    unread: tail.unread,
                },
                _ => tail,
            }
        },
        FrameHead::Incomplete => DiffRun {
            counts,
            frames,
            reports: Seq::empty(),
            stopped: if finished {
                Some(DiffStop::Ended)
            } else {
                None
            },
            unread,
        },
        FrameHead::TooLong => DiffRun {
            counts,
            frames,
            reports: Seq::empty(),
            stopped: Some(DiffStop::Failed(RecvError::FrameTooLong)),
            unread,
        },
    }
}

/// The byte stream that carries `infos` as push messages, one frame each.
pub open spec fn info_stream(infos: Seq<ServerInfoView>) -> Seq<u8>
    decreases infos.len(),
{
    if infos.len() == 0 {
        Seq::empty()
    } else {
        frame(server_push_bytes(ServerPushView::ServerInfo(infos.first()))) + info_stream(
            infos.drop_first(),
        )
    }
}

/// Whether each of `infos` fits into a frame as a push message.
pub open spec fn all_infos_fit(infos: Seq<ServerInfoView>) -> bool {
    forall|i: int|
        0 <= i < infos.len() ==> server_push_bytes(
            ServerPushView::ServerInfo(#[trigger] infos[i]),
        ).len() <= crate::frame::MAX_FRAME_LEN
}

/// The sizes of a list of payloads.
pub open spec fn sizes_of(payloads: Seq<Seq<u8>>) -> Seq<nat> {
    Seq::new(payloads.len(), |i: int| payloads[i].len())
}

/// A push consumer that is given server descriptions followed by a
/// disconnect message reports the descriptions in order and then stops
/// because of the disconnect, whether or not the channel has ended. What
/// follows the disconnect message is not consumed.
pub proof fn lemma_push_run_until_disconnect(
    infos: Seq<ServerInfoView>,
    tail: Seq<u8>,
    finished: bool,
)
    requires
        all_infos_fit(infos),
    ensures
        push_run(
            info_stream(infos) + frame(server_push_bytes(ServerPushView::Disconnect)) + tail,
            finished,
        ) == (PushRun { reports: infos, stopped: Some(PushStop::Disconnected), unread: tail }),
    decreases infos.len(),
{
    let disconnect = server_push_bytes(ServerPushView::Disconnect);
    let bytes = info_stream(infos) + frame(disconnect) + tail;
    if infos.len() == 0 {
        assert(bytes =~= frame(disconnect) + tail);
        assert(infos =~= Seq::<ServerInfoView>::empty());
        lemma_head_of_frame(disconnect, tail);
        lemma_server_push_roundtrip(ServerPushView::Disconnect);
    } else {
        let first = ServerPushView::ServerInfo(infos.first());
        let others = infos.drop_first();
        let rest = info_stream(others) + frame(disconnect) + tail;
        assert(infos.first() == infos[0]);
        assert(all_infos_fit(others)) by {
            assert forall|i: int| 0 <= i < others.len() implies server_push_bytes(
                ServerPushView::ServerInfo(#[trigger] others[i]),
            ).len() <= crate::frame::MAX_FRAME_LEN by {
                assert(others[i] == infos[i + 1]);
            }
        }
        assert(bytes == frame(server_push_bytes(first)) + rest) by {
            assert(bytes =~= frame(server_push_bytes(first)) + rest);
        }
        lemma_head_of_frame(server_push_bytes(first), rest);
        lemma_server_push_roundtrip(first);
        lemma_push_run_until_disconnect(others, tail, finished);
        assert(seq![infos.first()] + others =~= infos);
    }
}

/// A diff consumer that is given whole frames counts each of them: its
/// histogram then holds the size of every payload, besides what it held
/// before, and nothing else.
pub proof fn lemma_diff_run_counts(
    counts: Seq<nat>,
    counted_before: nat,
    payloads: Seq<Seq<u8>>,
    tail: Seq<u8>,
    finished: bool,
)
    requires
        all_fit(payloads),
        !(frame_head(tail) is Complete),
    ensures
        diff_run(counts, counted_before, frames(payloads) + tail, finished).counts
            == recorded_all(counts, sizes_of(payloads)),
        diff_run(counts, counted_before, frames(payloads) + tail, finished).frames
            == counted_before + payloads.len(),
        diff_run(counts, counted_before, frames(payloads) + tail, finished).unread == tail,
    decreases payloads.len(),
{
    if payloads.len() == 0 {
        assert(frames(payloads) + tail =~= tail);
    } else {
        let first = payloads.first();
        let others = payloads.drop_first();
        let rest = frames(others) + tail;
        assert(first == payloads[0]);
        assert(all_fit(others)) by {
            assert forall|i: int| 0 <= i < others.len() implies (#[trigger] others[i]).len()
                <= crate::frame::MAX_FRAME_LEN by {
                assert(others[i] == payloads[i + 1]);
            }
        }
        assert(frames(payloads) + tail == frame(first) + rest) by {
            assert(frames(payloads) + tail =~= frame(first) + rest);
        }
        lemma_head_of_frame(first, rest);
        lemma_diff_run_counts(
            recorded(counts, first.len()),
            counted_before + 1,
            others,
            tail,
            finished,
        );
        assert(sizes_of(payloads).first() == first.len());
        assert(sizes_of(payloads).drop_first() =~= sizes_of(others));
    }
}

/// Consumer of the push channel.
pub struct PushConsumer {
    stream: FramedRecvStream,
    stopped: Option<PushStop>,
}

impl PushConsumer {
    /// Validity of the receive half, whose sequence is over exactly when
    /// the consumer has stopped.
    pub closed spec fn wf(&self) -> bool {
        &&& self.stream.wf()
        &&& self.stopped is Some <==> self.stream.ended()
    }

    /// The bytes that were fed and not yet consumed.
    pub closed spec fn unread(&self) -> Seq<u8> {
        self.stream.unread()
    }

    /// Whether the end of the channel was announced.
    pub closed spec fn finished(&self) -> bool {
        self.stream.finished()
    }

    /// Why the consumer has stopped, if it has.
    pub closed spec fn stopped(&self) -> Option<PushStop> {
        self.stopped
    }

    /// Takes over the receive half of the push channel, with the bytes it
    /// has not handed out yet. Where its sequence is over already, the
    /// consumer has stopped because the channel ended.
    pub fn new(stream: FramedRecvStream) -> (consumer: PushConsumer)
        requires
            stream.wf(),
        ensures
            consumer.wf(),
            consumer.unread() == stream.unread(),
            consumer.finished() == stream.finished(),
            consumer.stopped() == if stream.ended() {
                Some(PushStop::Ended)
            } else {
                None::<PushStop>
            },
    {
        let stopped = if stream.has_ended() {
            Some(PushStop::Ended)
        } else {
            None
        };
        PushConsumer { stream, stopped }
    }

    /// Takes in the bytes that were read from the channel. A consumer that
    /// has stopped, or was told that the channel ended, drops them.
    pub fn feed(&mut self, chunk: &[u8])
        requires
            old(self).wf(),
        ensures
            final(self).wf(),
            final(self).finished() == old(self).finished(),
            final(self).stopped() == old(self).stopped(),
            final(self).unread() == if old(self).finished() || old(self).stopped() is Some {
                old(self).unread()
            } else {
                old(self).unread() + chunk@
            },
    {
        self.stream.feed(chunk);
    }

    /// Announces the end of the channel.
    pub fn finish(&mut self)
        requires
            old(self).wf(),
        ensures
            final(self).wf(),
            final(self).finished(),
            final(self).stopped() == old(self).stopped(),
            final(self).unread() == old(self).unread(),
    {
        self.stream.finish();
    }

    /// Tells the consumer to stop. A consumer that has stopped already
    /// keeps its reason.
    pub fn cancel(&mut self)
        requires
            old(self).wf(),
        ensures
            final(self).wf(),
            final(self).finished() == old(self).finished(),
            final(self).unread() == old(self).unread(),
            final(self).stopped() == match old(self).stopped() {
                Some(cause) => Some(cause),
                None => Some(PushStop::Cancelled),
            },
    {
        if self.stopped.is_none() {
            self.stream.stop();
            self.stopped = Some(PushStop::Cancelled);
        }
    }

    /// Consumes the next frame, if it has arrived in full.
    ///
    /// A server description is reported and the consumer goes on. A
    /// disconnect message, a frame that is corrupt or holds no message, and
    /// the end of the channel stop the consumer. A consumer that has
    /// stopped stays stopped and consumes nothing.
    pub fn poll(&mut self) -> (step: PushStep)
        requires
            old(self).wf(),
        ensures
            final(self).wf(),
            final(self).finished() == old(self).finished(),
            match old(self).stopped() {
                Some(cause) => {
                    &&& step == PushStep::Stopped(cause)
                    &&& final(self).stopped() == Some(cause)
                    &&& final(self).unread() == old(self).unread()
                },
                None => {
                    &&& step@ == push_outcome(old(self).unread(), old(self).finished())
                    &&& final(self).unread() == after_frame(old(self).unread())
                    &&& final(self).stopped() == match step {
                        PushStep::Stopped(cause) => Some(cause),
                        _ => None,
                    }
                },
            },
    {
        if let Some(cause) = self.stopped {
            return PushStep::Stopped(cause);
        }
        match self.stream.next() {
            Received::Item(ServerPush::ServerInfo(info)) => PushStep::Report(info),
            Received::Item(ServerPush::Disconnect) => {
                self.stream.stop();
                self.stopped = Some(PushStop::Disconnected);
                PushStep::Stopped(PushStop::Disconnected)
            },
            Received::Pending => PushStep::Waiting,
            Received::End => {
                self.stopped = Some(PushStop::Ended);
                PushStep::Stopped(PushStop::Ended)
            },
            Received::Failed(error) => {
                self.stopped = Some(PushStop::Failed(error));
                PushStep::Stopped(PushStop::Failed(error))
            },
        }
    }

    /// Consumes frame after frame until the next one has not arrived in
    /// full or the consumer stops, and hands out the server descriptions
    /// that were to be reported on the way.
    pub fn drain(&mut self) -> (reports: Vec<ServerInfo>)
        requires
            old(self).wf(),
        ensures
            final(self).wf(),
            final(self).finished() == old(self).finished(),
            match old(self).stopped() {
                Some(cause) => {
                    &&& reports@.len() == 0
                    &&& final(self).stopped() == Some(cause)
                    &&& final(self).unread() == old(self).unread()
                },
                None => {
                    let run = push_run(old(self).unread(), old(self).finished());
                    &&& infos_of(reports@) == run.reports
                    &&& final(self).stopped() == run.stopped
                    &&& final(self).unread() == run.unread
                },
            },
    {
        let ghost finished = self.finished();
        let ghost run = push_run(self.unread(), finished);
        let ghost was_stopped = self.stopped();
        let ghost was_unread = self.unread();
        let mut reports: Vec<ServerInfo> = Vec::new();
        assert(infos_of(reports@) + run.reports =~= run.reports);
        loop
            invariant
                self.wf(),
                self.finished() == finished,
                finished == old(self).finished(),
                was_stopped == old(self).stopped(),
                was_unread == old(self).unread(),
                run == push_run(old(self).unread(), old(self).finished()),
                was_stopped is Some ==> reports@.len() == 0 && self.stopped() == was_stopped
                    && self.unread() == was_unread,
                was_stopped is None ==> self.stopped() is None,
                run.reports == infos_of(reports@) + push_run(self.unread(), finished).reports,
                run.stopped == push_run(self.unread(), finished).stopped,
                run.unread == push_run(self.unread(), finished).unread,
            decreases self.unread().len(),
        {
            let ghost before = infos_of(reports@);
            let ghost unread = self.unread();
            match self.poll() {
                PushStep::Report(info) => {
                    reports.push(info);
                    proof {
                        assert(infos_of(reports@) =~= before.push(info@));
                        assert(before.push(info@) + push_run(self.unread(), finished).reports
                            =~= before + push_run(unread, finished).reports);
                    }
                },
                _ => {
                    assert(infos_of(reports@) + Seq::<ServerInfoView>::empty() =~= infos_of(
                        reports@,
                    ));
                    return reports;
                },
            }
        }
    }
}

/// Consumer of the diff channel.
pub struct DiffConsumer {
    stream: RawFramedRecvStream,
    stats: SizeHistogram,
    stopped: Option<DiffStop>,
}

impl DiffConsumer {
    /// Validity of the histogram and of the receive half, whose sequence is
    /// over exactly when the consumer has stopped.
    pub closed spec fn wf(&self) -> bool {
        &&& self.stream.wf()
        &&& self.stats.wf()
        &&& self.stopped is Some <==> self.stream.ended()
    }

    /// The bytes that were fed and not yet consumed.
    pub closed spec fn unread(&self) -> Seq<u8> {
        self.stream.unread()
    }

    /// Whether the end of the channel was announced.
    pub closed spec fn finished(&self) -> bool {
        self.stream.finished()
    }

    /// Why the consumer has stopped, if it has.
    pub closed spec fn stopped(&self) -> Option<DiffStop> {
        self.stopped
    }

    /// The count of each size bucket, by bucket number.
    pub closed spec fn counts(&self) -> Seq<nat> {
        self.stats@
    }

    /// Number of frames counted so far.
    pub closed spec fn frames(&self) -> nat {
        self.stats.total()
    }

    /// Takes over the receive half of the diff channel, with an empty
    /// histogram of its own. Where the receive half's sequence is over
    /// already, the consumer has stopped because the channel ended.
    pub fn new(stream: RawFramedRecvStream) -> (consumer: DiffConsumer)
        requires
            stream.wf(),
        ensures
            consumer.wf(),
            consumer.unread() == stream.unread(),
            consumer.finished() == stream.finished(),
            consumer.stopped() == if stream.ended() {
                Some(DiffStop::Ended)
            } else {
                None::<DiffStop>
            },
            consumer.frames() == 0,
            consumer.counts() == Seq::new(BUCKETS as nat, |k: int| 0nat),
    {
        let stopped = if stream.has_ended() {
            Some(DiffStop::Ended)
        } else {
            None
        };
        DiffConsumer { stream, stats: SizeHistogram::new(), stopped }
    }

    /// Takes in the bytes that were read from the channel. A consumer that
    /// has stopped, or was told that the channel ended, drops them.
    pub fn feed(&mut self, chunk: &[u8])
        requires
            old(self).wf(),
        ensures
            final(self).wf(),
            final(self).finished() == old(self).finished(),
            final(self).stopped() == old(self).stopped(),
            final(self).counts() == old(self).counts(),
            final(self).frames() == old(self).frames(),
            final(self).unread() == if old(self).finished() || old(self).stopped() is Some {
                old(self).unread()
            } else {
                old(self).unread() + chunk@
            },
    {
        self.stream.feed(chunk);
    }

    /// Announces the end of the channel.
    pub fn finish(&mut self)
        requires
            old(self).wf(),
        ensures
            final(self).wf(),
            final(self).finished(),
            final(self).stopped() == old(self).stopped(),
            final(self).counts() == old(self).counts(),
            final(self).frames() == old(self).frames(),
            final(self).unread() == old(self).unread(),
    {
        self.stream.finish();
    }

    /// Tells the consumer to stop. A consumer that has stopped already
    /// keeps its reason.
    pub fn cancel(&mut self)
        requires
            old(self).wf(),
        ensures
            final(self).wf(),
            final(self).finished() == old(self).finished(),
            final(self).unread() == old(self).unread(),
            final(self).counts() == old(self).counts(),
            final(self).frames() == old(self).frames(),
            final(self).stopped() == match old(self).stopped() {
                Some(cause) => Some(cause),
                None => Some(DiffStop::Cancelled),
            },
    {
        if self.stopped.is_none() {
            self.stream.stop();
            self.stopped = Some(DiffStop::Cancelled);
        }
    }

    /// Number of frames counted so far.
    pub fn frames_seen(&self) -> (n: usize)
        ensures
            n == self.frames(),
    {
        self.stats.len()
    }

    /// Number of bytes that were fed and not yet consumed.
    pub fn pending_len(&self) -> (n: usize)
        requires
            self.wf(),
        ensures
            n == self.unread().len(),
    {
        self.stream.pending_len()
    }

    /// Consumes the next frame, if it has arrived in full.
    ///
    /// The size of the frame's payload is recorded. Whenever the number of
    /// frames counted reaches a multiple of [`REPORT_EVERY`], the step
    /// carries a progress report. A corrupt frame and the end of the channel
    /// stop the consumer. A consumer that has stopped stays stopped and
    /// consumes nothing.
    ///
    /// Where a frame is to be counted, the count must not be full.
    pub fn poll(&mut self) -> (step: DiffStep)
        requires
            old(self).wf(),
            old(self).frames() < usize::MAX || old(self).stopped() is Some || !(frame_head(
                old(self).unread(),
            ) is Complete),
        ensures
            final(self).wf(),
            final(self).finished() == old(self).finished(),
            match old(self).stopped() {
                Some(cause) => {
                    &&& step == DiffStep::Stopped(cause)
                    &&& final(self).stopped() == Some(cause)
                    &&& final(self).unread() == old(self).unread()
                    &&& final(self).counts() == old(self).counts()
                    &&& final(self).frames() == old(self).frames()
                },
                None => {
                    &&& step@ == diff_outcome(
                        old(self).counts(),
                        old(self).frames(),
                        old(self).unread(),
                        old(self).finished(),
                    )
                    &&& final(self).unread() == after_frame(old(self).unread())
                    &&& final(self).counts() == counted(old(self).counts(), old(self).unread())
                    &&& final(self).frames() == old(self).frames() + if step is Counted {
                        1nat
                    } else {
                        0nat
                    }
                    &&& final(self).stopped() == match step {
                        DiffStep::Stopped(cause) => Some(cause),
                        _ => None,
                    }
                },
            },
    {
        if let Some(cause) = self.stopped {
            return DiffStep::Stopped(cause);
        }
        match self.stream.next() {
            Received::Item(payload) => {
                self.stats.incr(payload.len());
                let frames: usize = self.stats.len();
                if frames % REPORT_EVERY == 0 {
                    DiffStep::Counted(Some(Progress { frames, summary: self.stats.summary() }))
                } else {
                    DiffStep::Counted(None)
                }
            },
            Received::Pending => DiffStep::Waiting,
            Received::End => {
                self.stopped = Some(DiffStop::Ended);
                DiffStep::Stopped(DiffStop::Ended)
            },
            Received::Failed(error) => {
                self.stopped = Some(DiffStop::Failed(error));
                DiffStep::Stopped(DiffStop::Failed(error))
            },
        }
    }

    /// Consumes frame after frame until the next one has not arrived in
    /// full or the consumer stops, and hands out the progress reports that
    /// were due on the way.
    ///
    /// The count must have room for as many frames as there are bytes to
    /// consume.
    pub fn drain(&mut self) -> (reports: Vec<Progress>)
        requires
            old(self).wf(),
            old(self).frames() + old(self).unread().len() < usize::MAX,
        ensures
            final(self).wf(),
            final(self).finished() == old(self).finished(),
            match old(self).stopped() {
                Some(cause) => {
                    &&& reports@.len() == 0
                    &&& final(self).stopped() == Some(cause)
                    &&& final(self).unread() == old(self).unread()
                    &&& final(self).counts() == old(self).counts()
                    &&& final(self).frames() == old(self).frames()
                },
                None => {
                    let run = diff_run(
                        old(self).counts(),
                        old(self).frames(),
                        old(self).unread(),
                        old(self).finished(),
                    );
                    &&& reports_of(reports@) == run.reports
                    &&& final(self).stopped() == run.stopped
                    &&& final(self).unread() == run.unread
                    &&& final(self).counts() == run.counts
                    &&& final(self).frames() == run.frames
                },
            },
    {
        let ghost finished = self.finished();
        let ghost run = diff_run(self.counts(), self.frames(), self.unread(), finished);
        let ghost was_stopped = self.stopped();
        let ghost was_unread = self.unread();
        let ghost was_counts = self.counts();
        let ghost was_frames = self.frames();
        let mut reports: Vec<Progress> = Vec::new();
        assert(reports_of(reports@) + run.reports =~= run.reports);
        loop
            invariant
                self.wf(),
                self.finished() == finished,
                finished == old(self).finished(),
                was_stopped == old(self).stopped(),
                was_unread == old(self).unread(),
                was_counts == old(self).counts(),
                was_frames == old(self).frames(),
                run == diff_run(was_counts, was_frames, was_unread, finished),
                self.frames() + self.unread().len() < usize::MAX,
                was_stopped is Some ==> reports@.len() == 0 && self.stopped() == was_stopped
                    && self.unread() == was_unread && self.counts() == was_counts
                    && self.frames() == was_frames,
                was_stopped is None ==> self.stopped() is None,
                run.reports == reports_of(reports@) + diff_run(
                    self.counts(),
                    self.frames(),
                    self.unread(),
                    finished,
                ).reports,
                run.stopped == diff_run(
                    self.counts(),
                    self.frames(),
                    self.unread(),
                    finished,
                ).stopped,
                run.unread == diff_run(
                    self.counts(),
                    self.frames(),
                    self.unread(),
                    finished,
                ).unread,
                run.counts == diff_run(
                    self.counts(),
                    self.frames(),
                    self.unread(),
                    finished,
                ).counts,
                run.frames == diff_run(
                    self.counts(),
                    self.frames(),
                    self.unread(),
                    finished,
                ).frames,
            decreases self.unread().len(),
        {
            let ghost before = reports_of(reports@);
            let ghost ahead = diff_run(self.counts(), self.frames(), self.unread(), finished);
            match self.poll() {
                DiffStep::Counted(Some(progress)) => {
                    reports.push(progress);
                    proof {
                        let next = diff_run(self.counts(), self.frames(), self.unread(), finished);
                        assert(reports_of(reports@) =~= before.push(progress@));
                        assert(before.push(progress@) + next.reports =~= before + ahead.reports);
                    }
                },
                DiffStep::Counted(None) => {},
                _ => {
                    assert(reports_of(reports@) + Seq::<ProgressView>::empty() =~= reports_of(
                        reports@,
                    ));
                    return reports;
                },
            }
        }
    }
}

} // verus!
