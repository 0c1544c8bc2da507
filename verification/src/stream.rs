//! Framed channels over one-way ordered byte streams.
//!
//! Nothing here performs I/O. A send half turns messages into the bytes to
//! write; a receive half is fed the bytes that were read and hands out the
//! frames they hold, one at a time and in order.

use crate::frame::{
    after_frame, encode_frame, frame, frame_head, lemma_head_of_frame, lemma_truncated_frame,
    peek_frame, split, FrameHead, Peek, MAX_FRAME_LEN,
};
use crate::proto::{
    client_request_bytes, decode_server_push, lemma_server_push_roundtrip, server_push_bytes,
    ClientRequest, ServerPush, ServerPushView,
};
use crate::wire::push_all;
use vstd::prelude::*;
use vstd::slice::{slice_subrange, slice_to_vec};

verus! {

broadcast use crate::wire::lemma_be32_len;

/// Why a send half refused a message.
#[derive(Clone, Copy, Debug, PartialEq, Eq)]
pub enum SendError {
    /// The send half was closed.
    Closed,
    /// The message is longer than a frame may carry.
    TooLarge,
}

/// Why a receive half ended with an error.
#[derive(Clone, Copy, Debug, PartialEq, Eq)]
pub enum RecvError {
    /// A frame's header announced more than a frame may carry.
    FrameTooLong,
    /// A frame's payload held no message.
    Malformed,
}

/// What a receive half has to offer.
#[derive(Clone, Debug, PartialEq, Eq)]
pub enum Received<T> {
    /// The next item of the sequence.
    Item(T),
    /// Nothing yet: the next frame has not arrived in full.
    Pending,
    /// The sequence is over.
    End,
    /// The sequence is over, for this reason. It is reported once.
    Failed(RecvError),
}

impl<T: View> View for Received<T> {
    type V = Received<T::V>;

    open spec fn view(&self) -> Received<T::V> {
        match self {
            Received::Item(item) => Received::Item(item@),
            Received::Pending => Received::Pending,
            Received::End => Received::End,
            Received::Failed(error) => Received::Failed(*error),
        }
    }
}

/// What a raw receive half whose sequence is not over hands out next,
/// given the bytes it has not handed out and whether the end of the byte
/// stream was announced.
pub open spec fn next_payload(unread: Seq<u8>, finished: bool) -> Received<Seq<u8>> {
    match frame_head(unread) {
        FrameHead::Complete { payload, rest } => Received::Item(payload),
        FrameHead::Incomplete => if finished {
            Received::End
        } else {
            Received::Pending
        },
        FrameHead::TooLong => Received::Failed(RecvError::FrameTooLong),
    }
}

/// What a typed receive half whose sequence is not over hands out next,
/// given the bytes it has not handed out and whether the end of the byte
/// stream was announced.
pub open spec fn next_push(unread: Seq<u8>, finished: bool) -> Received<ServerPushView> {
    match next_payload(unread, finished) {
        Received::Item(payload) => match decode_server_push(payload) {
            Some(message) => Received::Item(message),
            None => Received::Failed(RecvError::Malformed),
        },
        Received::Pending => Received::Pending,
        Received::End => Received::End,
        Received::Failed(error) => Received::Failed(error),
    }
}

/// The send half of the control channel.
pub struct FramedSendStream {
    queued: Vec<u8>,
    closed: bool,
}

impl FramedSendStream {
    /// The bytes of the frames that were sent and not yet flushed.
    pub closed spec fn queued(&self) -> Seq<u8> {
        self.queued@
    }

    /// Whether the send half was closed.
    pub closed spec fn is_closed(&self) -> bool {
        self.closed
    }

    /// An open send half with nothing queued.
    pub fn new() -> (stream: FramedSendStream)
        ensures
            stream.queued() == Seq::<u8>::empty(),
            !stream.is_closed(),
    {
        FramedSendStream { queued: Vec::new(), closed: false }
    }

    /// Queues the frame of `message` behind what is queued already. A closed
    /// send half accepts nothing, and a message that fits into no frame is
    /// refused; in both cases nothing changes.
    pub fn send(&mut self, message: &ClientRequest) -> (sent: Result<(), SendError>)
        ensures
            final(self).is_closed() == old(self).is_closed(),
            old(self).is_closed() ==> sent == Err::<(), SendError>(SendError::Closed),
            !old(self).is_closed() && client_request_bytes(message@).len() > MAX_FRAME_LEN ==> sent
                == Err::<(), SendError>(SendError::TooLarge),
            !old(self).is_closed() && client_request_bytes(message@).len() <= MAX_FRAME_LEN
                ==> sent is Ok,
            sent is Ok ==> final(self).queued() == old(self).queued() + frame(
                client_request_bytes(message@),
            ),
            sent is Err ==> final(self).queued() == old(self).queued(),
    {
        if self.closed {
            return Err(SendError::Closed);
        }
        let payload = match message.encode() {
            Some(payload) => payload,
            None => {
                return Err(SendError::TooLarge);
            },
        };
        match encode_frame(payload.as_slice()) {
            Some(bytes) => {
                push_all(&mut self.queued, bytes.as_slice());
                Ok(())
            },
            None => Err(SendError::TooLarge),
        }
    }

    /// Hands out the queued bytes for writing and empties the queue.
    pub fn flush(&mut self) -> (bytes: Vec<u8>)
        ensures
            bytes@ == old(self).queued(),
            final(self).queued() == Seq::<u8>::empty(),
            final(self).is_closed() == old(self).is_closed(),
    {
        let mut bytes: Vec<u8> = Vec::new();
        bytes.append(&mut self.queued);
        assert(bytes@ =~= old(self).queued());
        bytes
    }

    /// Closes the send half. What was queued and not flushed is dropped, and
    /// no further message is accepted.
    pub fn close(&mut self)
        ensures
            final(self).is_closed(),
            final(self).queued() == Seq::<u8>::empty(),
    {
        self.queued.clear();
        self.closed = true;
    }
}

/// A receive half that hands out the payload of each frame as it is.
pub struct RawFramedRecvStream {
    buf: Vec<u8>,
    pos: usize,
    finished: bool,
    ended: bool,
}

impl RawFramedRecvStream {
    /// Validity of the internal cursor.
    pub closed spec fn wf(&self) -> bool {
        self.pos <= self.buf@.len()
    }

    /// The bytes that were fed and not yet handed out.
    pub closed spec fn unread(&self) -> Seq<u8> {
        self.buf@.skip(self.pos as int)
    }

    /// Whether the end of the byte stream was announced.
    pub closed spec fn finished(&self) -> bool {
        self.finished
    }

    /// Whether the sequence is over.
    pub closed spec fn ended(&self) -> bool {
        self.ended
    }

    /// A receive half that has been fed nothing.
    pub fn new() -> (stream: RawFramedRecvStream)
        ensures
            stream.wf(),
            stream.unread() == Seq::<u8>::empty(),
            !stream.finished(),
            !stream.ended(),
    {
        let stream = RawFramedRecvStream { buf: Vec::new(), pos: 0, finished: false, ended: false };
        assert(stream.unread() =~= Seq::<u8>::empty());
        stream
    }

    /// Takes in the bytes that were read from the byte stream. Bytes fed
    /// after the end was announced, or after the sequence is over, are
    /// dropped.
    pub fn feed(&mut self, chunk: &[u8])
        requires
            old(self).wf(),
        ensures
            final(self).wf(),
            final(self).finished() == old(self).finished(),
            final(self).ended() == old(self).ended(),
            final(self).unread() == if old(self).finished() || old(self).ended() {
                old(self).unread()
            } else {
                old(self).unread() + chunk@
            },
    {
        if self.finished || self.ended {
            return ;
        }
        if self.pos > 0 {
            let kept = slice_to_vec(slice_subrange(self.buf.as_slice(), self.pos, self.buf.len()));
            assert(kept@ =~= old(self).unread());
            self.buf = kept;
            self.pos = 0;
        }
        push_all(&mut self.buf, chunk);
        assert(self.unread() =~= old(self).unread() + chunk@);
    }

    /// Announces the end of the byte stream.
    pub fn finish(&mut self)
        requires
            old(self).wf(),
        ensures
            final(self).wf(),
            final(self).finished(),
            final(self).ended() == old(self).ended(),
            final(self).unread() == old(self).unread(),
    {
        self.finished = true;
    }

    /// Ends the sequence: nothing more is handed out.
    pub fn stop(&mut self)
        requires
            old(self).wf(),
        ensures
            final(self).wf(),
            final(self).ended(),
            final(self).finished() == old(self).finished(),
            final(self).unread() == old(self).unread(),
    {
        self.ended = true;
    }

    /// Whether the sequence is over.
    pub fn has_ended(&self) -> (ended: bool)
        ensures
            ended == self.ended(),
    {
        self.ended
    }

    /// Number of bytes that were fed and not yet handed out.
    pub fn pending_len(&self) -> (n: usize)
        requires
            self.wf(),
        ensures
            n == self.unread().len(),
    {
        self.buf.len() - self.pos
    }

    /// Hands out the payload of the next frame.
    ///
    /// Where the next frame has not arrived in full, the sequence ends if
    /// the end of the byte stream was announced, and is pending if not. A
    /// corrupt header ends the sequence with an error. Once over, the
    /// sequence stays over.
    pub fn next(&mut self) -> (item: Received<Vec<u8>>)
        requires
            old(self).wf(),
        ensures
            final(self).wf(),
            final(self).finished() == old(self).finished(),
            if old(self).ended() {
                &&& item is End
                &&& final(self).ended()
                &&& final(self).unread() == old(self).unread()
            } else {
                &&& item@ == next_payload(old(self).unread(), old(self).finished())
                &&& final(self).unread() == after_frame(old(self).unread())
                &&& final(self).ended() == (item is End || item is Failed)
            },
    {
        if self.ended {
            return Received::End;
        }
        match peek_frame(self.buf.as_slice(), self.pos) {
            Peek::Complete { start, end } => {
                let payload = slice_to_vec(slice_subrange(self.buf.as_slice(), start, end));
                self.pos = end;
                Received::Item(payload)
            },
            Peek::Incomplete => {
                if self.finished {
                    self.ended = true;
                    Received::End
                } else {
                    Received::Pending
                }
            },
            Peek::TooLong => {
                self.ended = true;
                Received::Failed(RecvError::FrameTooLong)
            },
        }
    }
}

/// What a byte stream of push messages holds.
pub struct Pushes {
    /// The messages of the whole frames, in order, up to the first frame
    /// that holds no message.
    pub messages: Seq<ServerPushView>,
    /// Why the sequence ended early, if it did.
    pub error: Option<RecvError>,
}

/// Puts `first` in front of the messages of `tail`.
pub open spec fn after(first: Seq<ServerPushView>, tail: Pushes) -> Pushes {
    Pushes { messages: first + tail.messages, error: tail.error }
}

/// The sequence that the typed receive half makes of a whole byte stream:
/// one message per frame until the bytes run out, which ends the sequence
/// without an error, or until a frame is corrupt or holds no message.
pub open spec fn receive_pushes(bytes: Seq<u8>) -> Pushes
    decreases bytes.len(),
{
    match frame_head(bytes) {
        FrameHead::Complete { payload, rest } => match decode_server_push(payload) {
            Some(message) => after(seq![message], receive_pushes(rest)),
            None => Pushes { messages: Seq::empty(), error: Some(RecvError::Malformed) },
        },
        FrameHead::Incomplete => Pushes { messages: Seq::empty(), error: None },
        FrameHead::TooLong => Pushes {
            messages: Seq::empty(),
            error: Some(RecvError::FrameTooLong),
        },
    }
}

/// The byte stream that carries `messages`, one frame each.
pub open spec fn push_stream(messages: Seq<ServerPushView>) -> Seq<u8>
    decreases messages.len(),
{
    if messages.len() == 0 {
        Seq::empty()
    } else {
        frame(server_push_bytes(messages.first())) + push_stream(messages.drop_first())
    }
}

/// Whether each message fits into a frame.
pub open spec fn all_messages_fit(messages: Seq<ServerPushView>) -> bool {
    forall|i: int|
        0 <= i < messages.len() ==> server_push_bytes(#[trigger] messages[i]).len()
            <= MAX_FRAME_LEN
}

/// A whole frame of a message at the front of a byte stream is received as
/// that message, followed by whatever the bytes after it give.
pub proof fn lemma_receive_one(message: ServerPushView, rest: Seq<u8>)
    requires
        server_push_bytes(message).len() <= MAX_FRAME_LEN,
    ensures
        receive_pushes(frame(server_push_bytes(message)) + rest) == after(
            seq![message],
            receive_pushes(rest),
        ),
{
    lemma_head_of_frame(server_push_bytes(message), rest);
    lemma_server_push_roundtrip(message);
}

/// The messages of a byte stream of whole frames are received in order,
/// followed by whatever the bytes after them give.
pub proof fn lemma_receive_push_stream(messages: Seq<ServerPushView>, tail: Seq<u8>)
    requires
        all_messages_fit(messages),
    ensures
        receive_pushes(push_stream(messages) + tail) == after(messages, receive_pushes(tail)),
    decreases messages.len(),
{
    if messages.len() == 0 {
        assert(push_stream(messages) + tail =~= tail);
        assert(messages + receive_pushes(tail).messages =~= receive_pushes(tail).messages);
    } else {
        let first = messages.first();
        let others = messages.drop_first();
        let rest = push_stream(others) + tail;
        assert(server_push_bytes(messages[0]).len() <= MAX_FRAME_LEN);
        assert(all_messages_fit(others)) by {
            assert forall|i: int| 0 <= i < others.len() implies server_push_bytes(
                #[trigger] others[i],
            ).len() <= MAX_FRAME_LEN by {
                assert(others[i] == messages[i + 1]);
            }
        }
        assert(push_stream(messages) + tail == frame(server_push_bytes(first)) + rest) by {
            assert(push_stream(messages) + tail =~= frame(server_push_bytes(first)) + rest);
        }
        lemma_receive_one(first, rest);
        lemma_receive_push_stream(others, tail);
        assert(seq![first] + (others + receive_pushes(tail).messages) == messages
            + receive_pushes(tail).messages) by {
            assert(seq![first] + (others + receive_pushes(tail).messages) =~= messages
                + receive_pushes(tail).messages);
        }
    }
}

/// A byte stream of whole frames of messages, followed by a frame that is
/// cut short, gives exactly those messages and then ends without an error.
pub proof fn lemma_receive_truncated_stream(
    messages: Seq<ServerPushView>,
    last: Seq<u8>,
    cut: int,
)
    requires
        all_messages_fit(messages),
        last.len() <= MAX_FRAME_LEN,
        0 <= cut < frame(last).len(),
    ensures
        receive_pushes(push_stream(messages) + frame(last).subrange(0, cut)) == (Pushes {
            messages,
            error: None,
        }),
{
    let part = frame(last).subrange(0, cut);
    lemma_truncated_frame(last, cut);
    lemma_receive_push_stream(messages, part);
    assert(messages + Seq::<ServerPushView>::empty() =~= messages);
}

/// A receive half that decodes the payload of each frame as a push message.
pub struct FramedRecvStream {
    raw: RawFramedRecvStream,
}

impl FramedRecvStream {
    /// Validity of the internal cursor.
    pub closed spec fn wf(&self) -> bool {
        self.raw.wf()
    }

    /// The bytes that were fed and not yet handed out.
    pub closed spec fn unread(&self) -> Seq<u8> {
        self.raw.unread()
    }

    /// Whether the end of the byte stream was announced.
    pub closed spec fn finished(&self) -> bool {
        self.raw.finished()
    }

    /// Whether the sequence is over.
    pub closed spec fn ended(&self) -> bool {
        self.raw.ended()
    }

    /// A receive half that has been fed nothing.
    pub fn new() -> (stream: FramedRecvStream)
        ensures
            stream.wf(),
            stream.unread() == Seq::<u8>::empty(),
            !stream.finished(),
            !stream.ended(),
    {
        FramedRecvStream { raw: RawFramedRecvStream::new() }
    }

    /// Takes in the bytes that were read from the byte stream. Bytes fed
    /// after the end was announced, or after the sequence is over, are
    /// dropped.
    pub fn feed(&mut self, chunk: &[u8])
        requires
            old(self).wf(),
        ensures
            final(self).wf(),
            final(self).finished() == old(self).finished(),
            final(self).ended() == old(self).ended(),
            final(self).unread() == if old(self).finished() || old(self).ended() {
                old(self).unread()
            } else {
                old(self).unread() + chunk@
            },
    {
        self.raw.feed(chunk);
    }

    /// Announces the end of the byte stream.
    pub fn finish(&mut self)
        requires
            old(self).wf(),
        ensures
            final(self).wf(),
            final(self).finished(),
            final(self).ended() == old(self).ended(),
            final(self).unread() == old(self).unread(),
    {
        self.raw.finish();
    }

    /// Ends the sequence: nothing more is handed out.
    pub fn stop(&mut self)
        requires
            old(self).wf(),
        ensures
            final(self).wf(),
            final(self).ended(),
            final(self).finished() == old(self).finished(),
            final(self).unread() == old(self).unread(),
    {
        self.raw.stop();
    }

    /// Whether the sequence is over.
    pub fn has_ended(&self) -> (ended: bool)
        ensures
            ended == self.ended(),
    {
        self.raw.has_ended()
    }

    /// Number of bytes that were fed and not yet handed out.
    pub fn pending_len(&self) -> (n: usize)
        requires
            self.wf(),
        ensures
            n == self.unread().len(),
    {
        self.raw.pending_len()
    }

    /// Hands out the message of the next frame.
    ///
    /// Where the next frame has not arrived in full, the sequence ends if
    /// the end of the byte stream was announced, and is pending if not. A
    /// corrupt header, or a payload that holds no message, ends the sequence
    /// with an error. Once over, the sequence stays over.
    pub fn next(&mut self) -> (item: Received<ServerPush>)
        requires
            old(self).wf(),
        ensures
            final(self).wf(),
            final(self).finished() == old(self).finished(),
            if old(self).ended() {
                &&& item is End
                &&& final(self).ended()
                &&& final(self).unread() == old(self).unread()
            } else {
                &&& item@ == next_push(old(self).unread(), old(self).finished())
                &&& final(self).unread() == after_frame(old(self).unread())
                &&& final(self).ended() == (item is End || item is Failed)
            },
    {
        match self.raw.next() {
            Received::Item(payload) => match ServerPush::decode(payload.as_slice()) {
                Some(message) => Received::Item(message),
                None => {
                    self.raw.stop();
                    Received::Failed(RecvError::Malformed)
                },
            },
            Received::Pending => Received::Pending,
            Received::End => Received::End,
            Received::Failed(error) => Received::Failed(error),
        }
    }
}

/// The payloads of a list of byte vectors.
pub open spec fn payloads_of(list: Seq<Vec<u8>>) -> Seq<Seq<u8>> {
    Seq::new(list.len(), |i: int| list[i]@)
}

/// The messages of a list of push messages.
pub open spec fn messages_of(list: Seq<ServerPush>) -> Seq<ServerPushView> {
    Seq::new(list.len(), |i: int| list[i]@)
}

/// Runs the raw receive sequence over a whole byte stream: the payloads of
/// its frames in order, and the error that ended the sequence, if any.
pub fn receive_all_raw(bytes: &[u8]) -> (out: (Vec<Vec<u8>>, Option<RecvError>))
    ensures
        payloads_of(out.0@) == split(bytes@).payloads,
        out.1 == if split(bytes@).too_long {
            Some(RecvError::FrameTooLong)
        } else {
            None::<RecvError>
        },
{
    let mut stream = RawFramedRecvStream::new();
    stream.feed(bytes);
    stream.finish();
    let mut payloads: Vec<Vec<u8>> = Vec::new();
    assert(stream.unread() =~= bytes@);
    assert(payloads_of(payloads@) + split(stream.unread()).payloads =~= split(bytes@).payloads);
    loop
        invariant
            stream.wf(),
            stream.finished(),
            !stream.ended(),
            split(bytes@).payloads == payloads_of(payloads@) + split(stream.unread()).payloads,
            split(bytes@).too_long == split(stream.unread()).too_long,
        decreases stream.unread().len(),
    {
        let ghost before = payloads_of(payloads@);
        let ghost unread = stream.unread();
        match stream.next() {
            Received::Item(payload) => {
                payloads.push(payload);
                proof {
                    assert(payloads_of(payloads@) =~= before.push(payload@));
                    assert(before.push(payload@) + split(stream.unread()).payloads =~= before
                        + split(unread).payloads);
                }
            },
            Received::Failed(error) => {
                assert(payloads_of(payloads@) + Seq::<Seq<u8>>::empty() =~= payloads_of(
                    payloads@,
                ));
                return (payloads, Some(error));
            },
            _ => {
                assert(payloads_of(payloads@) + Seq::<Seq<u8>>::empty() =~= payloads_of(
                    payloads@,
                ));
                return (payloads, None);
            },
        }
    }
}

/// Runs the typed receive sequence over a whole byte stream: the messages
/// it yields in order, and the error that ended the sequence, if any.
pub fn receive_all(bytes: &[u8]) -> (out: (Vec<ServerPush>, Option<RecvError>))
    ensures
        messages_of(out.0@) == receive_pushes(bytes@).messages,
        out.1 == receive_pushes(bytes@).error,
{
    let mut stream = FramedRecvStream::new();
    stream.feed(bytes);
    stream.finish();
    let mut messages: Vec<ServerPush> = Vec::new();
    assert(stream.unread() =~= bytes@);
    assert(messages_of(messages@) + receive_pushes(stream.unread()).messages
        =~= receive_pushes(bytes@).messages);
    loop
        invariant
            stream.wf(),
            stream.finished(),
            !stream.ended(),
            receive_pushes(bytes@) == after(
                messages_of(messages@),
                receive_pushes(stream.unread()),
            ),
        decreases stream.unread().len(),
    {
        let ghost before = messages_of(messages@);
        let ghost unread = stream.unread();
        match stream.next() {
            Received::Item(message) => {
                messages.push(message);
                proof {
                    assert(messages_of(messages@) =~= before.push(message@));
                    assert(before.push(message@) + receive_pushes(stream.unread()).messages
                        =~= before + receive_pushes(unread).messages);
                }
            },
            Received::Failed(error) => {
                assert(messages_of(messages@) + Seq::<ServerPushView>::empty() =~= messages_of(
                    messages@,
                ));
                return (messages, Some(error));
            },
            _ => {
                assert(messages_of(messages@) + Seq::<ServerPushView>::empty() =~= messages_of(
                    messages@,
                ));
                return (messages, None);
            },
        }
    }
}

} // verus!
