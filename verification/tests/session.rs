use dummy_ambient_client::consumer::{
    DiffConsumer, DiffStep, DiffStop, Progress, PushConsumer, PushStep, PushStop, REPORT_EVERY,
};
use dummy_ambient_client::frame::{encode_frame, MAX_FRAME_LEN};
use dummy_ambient_client::proto::{ClientRequest, ServerInfo, ServerPush};
use dummy_ambient_client::serialization::FailableDeserialization;
use dummy_ambient_client::session::{
    generate_user_id, user_id_from, ActiveEnd, Session, SessionAction, SessionError, SessionEvent,
    SessionState, ShutdownStep, TOKEN_LEN,
};
use dummy_ambient_client::stream::{
    receive_all_raw, FramedRecvStream, RawFramedRecvStream, Received, RecvError,
};

fn info(version: &str) -> ServerInfo {
    ServerInfo {
        main_package_name: "main".to_string(),
        content_base_url: "https://assets.example/".to_string(),
        version: version.to_string(),
        external_components: FailableDeserialization(Some(vec!["physics".to_string()])),
    }
}

fn framed(push: &ServerPush) -> Vec<u8> {
    encode_frame(&push.encode().unwrap()).unwrap()
}

fn awaiting(user_id: &str) -> Session {
    let mut session = Session::new(user_id.to_string());
    assert!(matches!(session.step(SessionEvent::Start), SessionAction::SendConnect(_)));
    session
}

fn active(user_id: &str) -> Session {
    let mut session = awaiting(user_id);
    session.step(SessionEvent::FirstPush(ServerPush::ServerInfo(info("1"))));
    session
}

fn all_events() -> Vec<SessionEvent> {
    vec![
        SessionEvent::Start,
        SessionEvent::FirstPush(ServerPush::ServerInfo(info("1"))),
        SessionEvent::FirstPush(ServerPush::Disconnect),
        SessionEvent::FirstPushMissing,
        SessionEvent::FirstPushFailed(RecvError::Malformed),
        SessionEvent::ActiveEnded(ActiveEnd::Cancelled),
        SessionEvent::ActiveEnded(ActiveEnd::PushConsumerDone),
        SessionEvent::ActiveEnded(ActiveEnd::DiffConsumerDone),
        SessionEvent::StepDone,
        SessionEvent::StepFailed,
        SessionEvent::TransportFailed,
    ]
}

#[test]
fn session_starts_by_sending_connect() {
    let mut session = Session::new("dummy-user-7".to_string());
    assert_eq!(session.current_state(), SessionState::Connecting);
    let action = session.step(SessionEvent::Start);
    let mut expected = vec![0, 0, 0, 17, 0, 0, 0, 0, 12];
    expected.extend_from_slice(b"dummy-user-7");
    assert_eq!(action, SessionAction::SendConnect(expected.clone()));
    assert_eq!(session.current_state(), SessionState::AwaitingServerInfo);
    let (payloads, error) = receive_all_raw(&expected);
    assert_eq!(error, None);
    assert_eq!(
        ClientRequest::decode(&payloads[0]),
        Some(ClientRequest::Connect("dummy-user-7".to_string()))
    );
}

#[test]
fn server_info_then_disconnect_closes_through_active() {
    let mut push_channel = framed(&ServerPush::ServerInfo(info("1")));
    push_channel.extend_from_slice(&framed(&ServerPush::Disconnect));

    let mut session = awaiting("u");
    let mut push_recv = FramedRecvStream::new();
    push_recv.feed(&push_channel);
    let first = match push_recv.next() {
        Received::Item(push) => push,
        other => panic!("no first message: {:?}", other),
    };
    assert_eq!(
        session.step(SessionEvent::FirstPush(first)),
        SessionAction::StartConsumers(Some(info("1")))
    );
    assert_eq!(session.current_state(), SessionState::Active);

    let mut consumer = PushConsumer::new(push_recv);
    assert_eq!(consumer.poll(), PushStep::Stopped(PushStop::Disconnected));

    assert_eq!(
        session.step(SessionEvent::ActiveEnded(ActiveEnd::PushConsumerDone)),
        SessionAction::SendDisconnect(vec![0, 0, 0, 1, 1])
    );
    assert_eq!(session.current_state(), SessionState::Disconnecting(ShutdownStep::Notify));
    assert_eq!(session.step(SessionEvent::StepDone), SessionAction::Flush);
    assert_eq!(session.current_state(), SessionState::Disconnecting(ShutdownStep::Flush));
    assert_eq!(session.step(SessionEvent::StepDone), SessionAction::Close);
    assert_eq!(session.current_state(), SessionState::Disconnecting(ShutdownStep::Close));
    assert_eq!(session.step(SessionEvent::StepDone), SessionAction::Done(Ok(())));
    assert_eq!(session.current_state(), SessionState::Closed);
}

#[test]
fn disconnect_as_first_message_closes_without_active() {
    let mut session = awaiting("u");
    let mut push_recv = FramedRecvStream::new();
    push_recv.feed(&framed(&ServerPush::Disconnect));
    let first = match push_recv.next() {
        Received::Item(push) => push,
        other => panic!("no first message: {:?}", other),
    };
    assert_eq!(session.step(SessionEvent::FirstPush(first)), SessionAction::Done(Ok(())));
    assert_eq!(session.current_state(), SessionState::Closed);
    for event in all_events() {
        assert_eq!(session.step(event), SessionAction::Rejected);
        assert_eq!(session.current_state(), SessionState::Closed);
    }
}

#[test]
fn push_channel_that_ends_at_once_still_starts_the_consumers() {
    let mut session = awaiting("u");
    assert_eq!(
        session.step(SessionEvent::FirstPushMissing),
        SessionAction::StartConsumers(None)
    );
    assert_eq!(session.current_state(), SessionState::Active);
    let mut push_recv = FramedRecvStream::new();
    push_recv.finish();
    assert_eq!(push_recv.next(), Received::End);
    let mut consumer = PushConsumer::new(push_recv);
    assert_eq!(consumer.poll(), PushStep::Stopped(PushStop::Ended));
}

#[test]
fn error_before_the_first_message_aborts() {
    for error in [RecvError::Malformed, RecvError::FrameTooLong] {
        let mut session = awaiting("u");
        assert_eq!(
            session.step(SessionEvent::FirstPushFailed(error)),
            SessionAction::Done(Err(SessionError::Handshake(error)))
        );
        assert_eq!(session.current_state(), SessionState::Closed);
    }
}

#[test]
fn user_id_that_fits_no_frame_aborts() {
    let mut session = Session::new("x".repeat(MAX_FRAME_LEN));
    assert_eq!(
        session.step(SessionEvent::Start),
        SessionAction::Done(Err(SessionError::RequestTooLarge))
    );
    assert_eq!(session.current_state(), SessionState::Closed);
}

#[test]
fn transport_failure_closes_a_session_that_is_under_way() {
    let sessions = vec![Session::new("u".to_string()), awaiting("u"), active("u")];
    for mut session in sessions {
        assert_eq!(
            session.step(SessionEvent::TransportFailed),
            SessionAction::Done(Err(SessionError::Transport))
        );
        assert_eq!(session.current_state(), SessionState::Closed);
    }
}

#[test]
fn each_event_ends_active_the_same_way() {
    for end in [ActiveEnd::Cancelled, ActiveEnd::PushConsumerDone, ActiveEnd::DiffConsumerDone] {
        let mut session = active("u");
        assert_eq!(
            session.step(SessionEvent::ActiveEnded(end)),
            SessionAction::SendDisconnect(vec![0, 0, 0, 1, 1])
        );
        assert_eq!(session.current_state(), SessionState::Disconnecting(ShutdownStep::Notify));
    }
}

#[test]
fn failed_shutdown_step_is_reported_and_closes() {
    for (done, failed) in
        [(0, ShutdownStep::Notify), (1, ShutdownStep::Flush), (2, ShutdownStep::Close)]
    {
        let mut session = active("u");
        session.step(SessionEvent::ActiveEnded(ActiveEnd::Cancelled));
        for _ in 0..done {
            session.step(SessionEvent::StepDone);
        }
        assert_eq!(session.current_state(), SessionState::Disconnecting(failed));
        assert_eq!(
            session.step(SessionEvent::StepFailed),
            SessionAction::Done(Err(SessionError::Shutdown(failed)))
        );
        assert_eq!(session.current_state(), SessionState::Closed);
    }
}

#[test]
fn events_out_of_place_are_rejected() {
    let mut session = Session::new("u".to_string());
    for event in all_events() {
        if event != SessionEvent::Start && event != SessionEvent::TransportFailed {
            assert_eq!(session.step(event), SessionAction::Rejected);
            assert_eq!(session.current_state(), SessionState::Connecting);
        }
    }
    let mut session = awaiting("u");
    for event in [
        SessionEvent::Start,
        SessionEvent::ActiveEnded(ActiveEnd::Cancelled),
        SessionEvent::StepDone,
        SessionEvent::StepFailed,
    ] {
        assert_eq!(session.step(event), SessionAction::Rejected);
        assert_eq!(session.current_state(), SessionState::AwaitingServerInfo);
    }
    let mut session = active("u");
    for event in [
        SessionEvent::Start,
        SessionEvent::FirstPush(ServerPush::Disconnect),
        SessionEvent::FirstPushMissing,
        SessionEvent::FirstPushFailed(RecvError::Malformed),
        SessionEvent::StepDone,
        SessionEvent::StepFailed,
    ] {
        assert_eq!(session.step(event), SessionAction::Rejected);
        assert_eq!(session.current_state(), SessionState::Active);
    }
    session.step(SessionEvent::ActiveEnded(ActiveEnd::Cancelled));
    for event in [
        SessionEvent::Start,
        SessionEvent::FirstPushMissing,
        SessionEvent::ActiveEnded(ActiveEnd::Cancelled),
        SessionEvent::TransportFailed,
    ] {
        assert_eq!(session.step(event), SessionAction::Rejected);
        assert_eq!(session.current_state(), SessionState::Disconnecting(ShutdownStep::Notify));
    }
}

#[test]
fn malformed_diff_frame_stops_the_diff_consumer_only() {
    let mut push = PushConsumer::new(FramedRecvStream::new());
    let mut diff = DiffConsumer::new(RawFramedRecvStream::new());

    diff.feed(&[0, 0, 0, 2, 1, 2, 0xff, 0xff, 0xff, 0xff, 0, 0, 0, 1, 9]);
    assert_eq!(diff.poll(), DiffStep::Counted(None));
    assert_eq!(diff.poll(), DiffStep::Stopped(DiffStop::Failed(RecvError::FrameTooLong)));
    assert_eq!(diff.poll(), DiffStep::Stopped(DiffStop::Failed(RecvError::FrameTooLong)));
    assert_eq!(diff.frames_seen(), 1);

    push.feed(&framed(&ServerPush::ServerInfo(info("2"))));
    assert_eq!(push.poll(), PushStep::Report(info("2")));
    assert_eq!(push.poll(), PushStep::Waiting);
}

#[test]
fn malformed_push_frame_stops_the_push_consumer_only() {
    let mut push = PushConsumer::new(FramedRecvStream::new());
    let mut diff = DiffConsumer::new(RawFramedRecvStream::new());

    push.feed(&[0, 0, 0, 1, 9]);
    push.feed(&framed(&ServerPush::ServerInfo(info("2"))));
    assert_eq!(push.poll(), PushStep::Stopped(PushStop::Failed(RecvError::Malformed)));
    assert_eq!(push.poll(), PushStep::Stopped(PushStop::Failed(RecvError::Malformed)));

    diff.feed(&[0, 0, 0, 1, 9]);
    assert_eq!(diff.poll(), DiffStep::Counted(None));
    assert_eq!(diff.poll(), DiffStep::Waiting);
}

#[test]
fn push_consumer_reports_each_further_server_info() {
    let mut push = PushConsumer::new(FramedRecvStream::new());
    let mut bytes = framed(&ServerPush::ServerInfo(info("2")));
    bytes.extend_from_slice(&framed(&ServerPush::ServerInfo(info("3"))));
    bytes.extend_from_slice(&framed(&ServerPush::Disconnect));
    bytes.extend_from_slice(&framed(&ServerPush::ServerInfo(info("4"))));
    push.feed(&bytes);
    assert_eq!(push.poll(), PushStep::Report(info("2")));
    assert_eq!(push.poll(), PushStep::Report(info("3")));
    assert_eq!(push.poll(), PushStep::Stopped(PushStop::Disconnected));
    assert_eq!(push.poll(), PushStep::Stopped(PushStop::Disconnected));
    push.feed(&framed(&ServerPush::ServerInfo(info("5"))));
    assert_eq!(push.poll(), PushStep::Stopped(PushStop::Disconnected));
}

#[test]
fn push_consumer_stops_with_the_channel() {
    let mut push = PushConsumer::new(FramedRecvStream::new());
    push.feed(&[0, 0, 0]);
    assert_eq!(push.poll(), PushStep::Waiting);
    push.finish();
    assert_eq!(push.poll(), PushStep::Stopped(PushStop::Ended));
    let mut corrupt = PushConsumer::new(FramedRecvStream::new());
    corrupt.feed(&[0xff, 0, 0, 0]);
    assert_eq!(corrupt.poll(), PushStep::Stopped(PushStop::Failed(RecvError::FrameTooLong)));
}

#[test]
fn diff_consumer_reports_every_300th_frame() {
    assert_eq!(REPORT_EVERY, 300);
    let mut diff = DiffConsumer::new(RawFramedRecvStream::new());
    for round in 1..=2usize {
        for n in 1..=300usize {
            diff.feed(&[0, 0, 0, 3, 7, 7, 7]);
            let step = diff.poll();
            if n < 300 {
                assert_eq!(step, DiffStep::Counted(None));
            } else {
                assert_eq!(
                    step,
                    DiffStep::Counted(Some(Progress {
                        frames: round * 300,
                        summary: format!("2..=3: {}\n", round * 300),
                    }))
                );
            }
        }
    }
    assert_eq!(diff.frames_seen(), 600);
    assert_eq!(diff.poll(), DiffStep::Waiting);
    diff.finish();
    assert_eq!(diff.poll(), DiffStep::Stopped(DiffStop::Ended));
    assert_eq!(diff.frames_seen(), 600);
}

#[test]
fn diff_consumer_counts_sizes_not_contents() {
    let mut diff = DiffConsumer::new(RawFramedRecvStream::new());
    diff.feed(&[0, 0, 0, 0]);
    diff.feed(&[0, 0, 0, 1, 1]);
    diff.feed(&encode_frame(&vec![0xab; 1000]).unwrap());
    assert_eq!(diff.poll(), DiffStep::Counted(None));
    assert_eq!(diff.poll(), DiffStep::Counted(None));
    assert_eq!(diff.poll(), DiffStep::Counted(None));
    assert_eq!(diff.poll(), DiffStep::Waiting);
    assert_eq!(diff.frames_seen(), 3);
}

#[test]
fn user_ids_are_generated_afresh() {
    let first = generate_user_id();
    let second = generate_user_id();
    assert_ne!(first, second);
    for id in [first, second] {
        assert!(id.starts_with("dummy-user-"));
        assert_eq!(id.chars().count(), 11 + TOKEN_LEN);
        assert!(id.is_ascii());
        let mut session = Session::new(id);
        assert!(matches!(session.step(SessionEvent::Start), SessionAction::SendConnect(_)));
    }
}

#[test]
fn user_id_is_prefix_and_token() {
    assert_eq!(user_id_from("abc"), "dummy-user-abc");
    assert_eq!(user_id_from(""), "dummy-user-");
}

#[test]
fn cancelled_consumers_stop() {
    let mut push = PushConsumer::new(FramedRecvStream::new());
    push.feed(&framed(&ServerPush::ServerInfo(info("2"))));
    push.cancel();
    assert_eq!(push.poll(), PushStep::Stopped(PushStop::Cancelled));
    push.feed(&framed(&ServerPush::Disconnect));
    assert_eq!(push.poll(), PushStep::Stopped(PushStop::Cancelled));

    let mut diff = DiffConsumer::new(RawFramedRecvStream::new());
    diff.feed(&[0, 0, 0, 1, 9, 0, 0, 0, 0]);
    assert_eq!(diff.poll(), DiffStep::Counted(None));
    diff.cancel();
    assert_eq!(diff.poll(), DiffStep::Stopped(DiffStop::Cancelled));
    assert_eq!(diff.frames_seen(), 1);
}

#[test]
fn cancelling_keeps_the_reason_of_a_stopped_consumer() {
    let mut push = PushConsumer::new(FramedRecvStream::new());
    push.feed(&framed(&ServerPush::Disconnect));
    assert_eq!(push.poll(), PushStep::Stopped(PushStop::Disconnected));
    push.cancel();
    assert_eq!(push.poll(), PushStep::Stopped(PushStop::Disconnected));

    let mut diff = DiffConsumer::new(RawFramedRecvStream::new());
    diff.finish();
    assert_eq!(diff.poll(), DiffStep::Stopped(DiffStop::Ended));
    diff.cancel();
    assert_eq!(diff.poll(), DiffStep::Stopped(DiffStop::Ended));
}

#[test]
fn consumer_of_a_finished_sequence_has_stopped() {
    let mut failed = RawFramedRecvStream::new();
    failed.feed(&[0xff, 0, 0, 0]);
    assert_eq!(failed.next(), Received::Failed(RecvError::FrameTooLong));
    let mut diff = DiffConsumer::new(failed);
    assert_eq!(diff.poll(), DiffStep::Stopped(DiffStop::Ended));
}

#[test]
fn push_consumer_drains_up_to_the_disconnect() {
    let mut push = PushConsumer::new(FramedRecvStream::new());
    assert_eq!(push.drain(), Vec::new());
    let mut bytes = framed(&ServerPush::ServerInfo(info("2")));
    bytes.extend_from_slice(&framed(&ServerPush::ServerInfo(info("3"))));
    let cut = bytes.len() - 5;
    push.feed(&bytes[..cut]);
    assert_eq!(push.drain(), vec![info("2")]);
    assert_eq!(push.poll(), PushStep::Waiting);
    push.feed(&bytes[cut..]);
    push.feed(&framed(&ServerPush::ServerInfo(info("4"))));
    push.feed(&framed(&ServerPush::Disconnect));
    push.feed(&framed(&ServerPush::ServerInfo(info("5"))));
    assert_eq!(push.drain(), vec![info("3"), info("4")]);
    assert_eq!(push.poll(), PushStep::Stopped(PushStop::Disconnected));
    assert_eq!(push.drain(), Vec::new());
}

#[test]
fn push_consumer_drains_up_to_a_malformed_frame() {
    let mut push = PushConsumer::new(FramedRecvStream::new());
    push.feed(&framed(&ServerPush::ServerInfo(info("2"))));
    push.feed(&[0, 0, 0, 2, 1, 1]);
    push.feed(&framed(&ServerPush::ServerInfo(info("3"))));
    assert_eq!(push.drain(), vec![info("2")]);
    assert_eq!(push.poll(), PushStep::Stopped(PushStop::Failed(RecvError::Malformed)));
}

#[test]
fn diff_consumer_drains_what_has_arrived() {
    let mut diff = DiffConsumer::new(RawFramedRecvStream::new());
    for size in 0..650usize {
        diff.feed(&encode_frame(&vec![0u8; size % 5]).unwrap());
    }
    diff.feed(&[0, 0, 0, 9, 1]);
    assert_eq!(diff.pending_len(), 650 * 4 + 130 * (1 + 2 + 3 + 4) + 5);
    let reports = diff.drain();
    assert_eq!(
        reports,
        vec![
            Progress {
                frames: 300,
                summary: "0..=0: 60\n1..=1: 60\n2..=3: 120\n4..=7: 60\n".to_string()
            },
            Progress {
                frames: 600,
                summary: "0..=0: 120\n1..=1: 120\n2..=3: 240\n4..=7: 120\n".to_string()
            },
        ]
    );
    assert_eq!(diff.frames_seen(), 650);
    assert_eq!(diff.pending_len(), 5);
    assert_eq!(diff.poll(), DiffStep::Waiting);
    diff.finish();
    assert_eq!(diff.drain(), Vec::new());
    assert_eq!(diff.poll(), DiffStep::Stopped(DiffStop::Ended));
}

#[test]
fn diff_consumer_drains_up_to_a_corrupt_frame() {
    let mut diff = DiffConsumer::new(RawFramedRecvStream::new());
    diff.feed(&[0, 0, 0, 1, 5, 0, 0, 0, 0, 0x7f, 0, 0, 0, 0, 0, 0, 0]);
    assert_eq!(diff.drain(), Vec::new());
    assert_eq!(diff.frames_seen(), 2);
    assert_eq!(diff.poll(), DiffStep::Stopped(DiffStop::Failed(RecvError::FrameTooLong)));
}
