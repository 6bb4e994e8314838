use omniget::files::Platform;
use omniget::packet::{build_ack, build_data, build_offer, build_simple, PKT_ACCEPT};
use omniget::receive_session::{
    receive_file_udp, ReceiveAction, ReceiveError, ReceiveEvent, ReceiveSession,
};
use omniget::send_session::{send_file_udp, SendAction, SendError, SendEvent, SendSession};

fn send(session: &mut SendSession, event: SendEvent) -> SendAction {
    assert!(session.expects(&event));
    send_file_udp(session, &event)
}

fn receive(session: &mut ReceiveSession, event: ReceiveEvent) -> ReceiveAction {
    assert!(session.expects(&event));
    receive_file_udp(session, &event)
}

fn datagram(d: &[u8]) -> ReceiveEvent {
    ReceiveEvent::Received { datagram: d.to_vec() }
}

fn accepted() -> SendEvent {
    SendEvent::OfferReply { reply: Some(build_simple(PKT_ACCEPT, &[])) }
}

fn unpaused() -> SendEvent {
    SendEvent::Pause { paused: false, cancelled: false }
}

fn opened(size: u64) -> SendSession {
    let (mut s, _) = SendSession::new("a", size);
    assert!(matches!(send(&mut s, accepted()), SendAction::OpenFile));
    assert!(matches!(send(&mut s, SendEvent::Opened), SendAction::CheckCancel));
    s
}

#[test]
fn offer_is_repeated_until_accepted() {
    let (mut s, first) = SendSession::new("a.txt", 7);
    let offer = build_offer(7, "a.txt");
    assert!(matches!(first, SendAction::SendOffer(p) if p == offer));
    let quiet = SendEvent::OfferReply { reply: None };
    assert!(matches!(send(&mut s, quiet), SendAction::SendOffer(p) if p == offer));
    let noise = SendEvent::OfferReply { reply: Some(b"noise".to_vec()) };
    assert!(matches!(send(&mut s, noise), SendAction::SendOffer(p) if p == offer));
    assert!(!s.expects(&SendEvent::Opened));
    assert!(matches!(send(&mut s, accepted()), SendAction::OpenFile));
    assert!(!s.expects(&SendEvent::OfferExpired));
}

#[test]
fn sending_fails_as_it_should() {
    let (mut s, _) = SendSession::new("a", 1);
    assert!(matches!(
        send(&mut s, SendEvent::OfferExpired),
        SendAction::Fail(SendError::AcceptTimeout)
    ));
    let (mut s, _) = SendSession::new("a", 1);
    assert!(matches!(send(&mut s, SendEvent::OfferFailed), SendAction::Fail(SendError::Socket)));
    let (mut s, _) = SendSession::new("a", 1);
    send(&mut s, accepted());
    assert!(matches!(send(&mut s, SendEvent::FileFailed), SendAction::Fail(SendError::File)));
    let mut s = opened(1);
    assert!(matches!(
        send(&mut s, SendEvent::Turn { cancelled: true }),
        SendAction::Fail(SendError::Cancelled)
    ));
    assert!(!s.expects(&SendEvent::Turn { cancelled: false }));
    let mut s = opened(1);
    assert!(matches!(send(&mut s, SendEvent::Turn { cancelled: false }), SendAction::CheckPause));
    let paused = SendEvent::Pause { paused: true, cancelled: false };
    assert!(matches!(send(&mut s, paused), SendAction::Nap));
    let stopped = SendEvent::Pause { paused: true, cancelled: true };
    assert!(matches!(
        send(&mut s, stopped),
        SendAction::Fail(SendError::CancelledWhilePaused)
    ));
}

#[test]
fn file_is_sent_acknowledged_and_finished() {
    let mut s = opened(5);
    send(&mut s, SendEvent::Turn { cancelled: false });
    assert!(matches!(send(&mut s, unpaused()), SendAction::ReadChunk));
    assert!(!s.expects(&SendEvent::Chunk { data: vec![0; 1401] }));
    assert!(s.expects(&SendEvent::Chunk { data: vec![0; 1400] }));
    let chunk = SendEvent::Chunk { data: b"hello".to_vec() };
    assert!(matches!(send(&mut s, chunk), SendAction::SendData(p) if p == build_data(0, b"hello")));
    assert!(matches!(send(&mut s, SendEvent::Sent { now_nanos: 7 }), SendAction::ReadChunk));
    let end = SendEvent::Chunk { data: Vec::new() };
    assert!(matches!(send(&mut s, end), SendAction::AwaitAck));
    assert!(!s.expects(&SendEvent::Received { datagram: build_ack(u32::MAX) }));
    let silent = SendEvent::Silent { now_nanos: 300_000_006 };
    assert!(matches!(send(&mut s, silent), SendAction::Resend(v) if v.is_empty()));
    send(&mut s, SendEvent::Turn { cancelled: false });
    assert!(matches!(send(&mut s, unpaused()), SendAction::AwaitAck));
    let silent = SendEvent::Silent { now_nanos: 300_000_007 };
    assert!(matches!(send(&mut s, silent), SendAction::Resend(v) if v == [build_data(0, b"hello")]));
    send(&mut s, SendEvent::Turn { cancelled: false });
    assert!(matches!(send(&mut s, unpaused()), SendAction::AwaitAck));
    let noise = SendEvent::Received { datagram: b"noise".to_vec() };
    assert!(matches!(send(&mut s, noise), SendAction::CheckCancel));
    send(&mut s, SendEvent::Turn { cancelled: false });
    send(&mut s, unpaused());
    let ack = SendEvent::Received { datagram: build_ack(0) };
    assert!(matches!(send(&mut s, ack), SendAction::Progress(5)));
    send(&mut s, SendEvent::Turn { cancelled: false });
    assert!(matches!(send(&mut s, unpaused()), SendAction::SendFin(p) if p == b"OMNI\x40"));
    let reply = SendEvent::FinReply { reply: Some(b"OMNI\x41".to_vec()) };
    assert!(matches!(send(&mut s, reply), SendAction::Finish(5)));
}

#[test]
fn window_binds_a_sender_whose_peer_acknowledges_too_much() {
    let mut s = opened(1_000_000_000);
    send(&mut s, SendEvent::Turn { cancelled: false });
    let mut action = send(&mut s, unpaused());
    let mut sent = 0;
    let mut base = 0;
    for ack in [10_000, 20] {
        while matches!(action, SendAction::ReadChunk) {
            match send(&mut s, SendEvent::Chunk { data: vec![1; 1400] }) {
                SendAction::SendData(p) => {
                    assert!(sent < base + 256);
                    assert_eq!(p, build_data(sent, &[1; 1400]));
                }
                _ => panic!("not sent"),
            }
            sent += 1;
            action = send(&mut s, SendEvent::Sent { now_nanos: 0 });
        }
        assert_eq!(sent, base + 256);
        send(&mut s, SendEvent::Received { datagram: build_ack(ack) });
        base = base.max(ack + 1);
        send(&mut s, SendEvent::Turn { cancelled: false });
        action = send(&mut s, unpaused());
    }
    assert!(matches!(action, SendAction::AwaitAck));
    match send(&mut s, SendEvent::Silent { now_nanos: 300_000_000 }) {
        SendAction::Resend(packets) => {
            assert_eq!(packets.len(), 10_257 - 256);
            assert_eq!(packets[0], build_data(256, &[1; 1400]));
            assert_eq!(packets[10_000], build_data(10_256, &[1; 1400]));
        }
        _ => panic!("not sent again"),
    }
}

#[test]
fn end_is_announced_ten_times_at_most() {
    let mut s = opened(0);
    send(&mut s, SendEvent::Turn { cancelled: false });
    send(&mut s, unpaused());
    let end = SendEvent::Chunk { data: Vec::new() };
    assert!(matches!(send(&mut s, end), SendAction::SendFin(_)));
    for _ in 0..9 {
        let reply = SendEvent::FinReply { reply: None };
        assert!(matches!(send(&mut s, reply), SendAction::SendFin(_)));
    }
    let reply = SendEvent::FinReply { reply: Some(b"noise".to_vec()) };
    assert!(matches!(send(&mut s, reply), SendAction::Finish(0)));
}

#[test]
fn offered_file_is_named_and_received() {
    let mut s = ReceiveSession::new(Platform::Linux).0;
    assert!(matches!(receive(&mut s, datagram(b"noise")), ReceiveAction::AwaitOffer));
    match receive(&mut s, datagram(&build_offer(6, "../x.txt"))) {
        ReceiveAction::Accept { reply, file_name } => {
            assert_eq!(reply, b"OMNI\x21");
            assert_eq!(file_name, "..x.txt");
        }
        _ => panic!("not accepted"),
    }
    assert_eq!(s.file_size(), 6);
    let taken = ReceiveEvent::NameTaken { end: Some("..x.txt".to_string()) };
    assert!(matches!(receive(&mut s, taken), ReceiveAction::TryName(n) if n == "..x (1).txt"));
    let taken = ReceiveEvent::NameTaken { end: Some("..x (1).txt".to_string()) };
    assert!(matches!(receive(&mut s, taken), ReceiveAction::TryName(n) if n == "..x (2).txt"));
    assert!(matches!(receive(&mut s, ReceiveEvent::NameFree), ReceiveAction::CreateFile));
    let turn = || ReceiveEvent::Turn { cancelled: false };
    assert!(matches!(receive(&mut s, turn()), ReceiveAction::AwaitData));
    match receive(&mut s, datagram(&build_data(1, b"def"))) {
        ReceiveAction::Write { chunks, ack, received } => {
            assert!(chunks.is_empty());
            assert_eq!(ack, build_ack(0));
            assert_eq!(received, 0);
        }
        _ => panic!("not data"),
    }
    receive(&mut s, turn());
    assert!(matches!(
        receive(&mut s, datagram(&build_offer(6, "../x.txt"))),
        ReceiveAction::AcceptAgain { reply } if reply == b"OMNI\x21"
    ));
    receive(&mut s, turn());
    assert!(matches!(receive(&mut s, ReceiveEvent::SocketFailed), ReceiveAction::CheckCancel));
    receive(&mut s, turn());
    match receive(&mut s, datagram(&build_data(0, b"abc"))) {
        ReceiveAction::Write { chunks, ack, received } => {
            assert_eq!(chunks.concat(), b"abcdef");
            assert_eq!(ack, build_ack(1));
            assert_eq!(received, 6);
        }
        _ => panic!("not data"),
    }
    receive(&mut s, turn());
    assert!(matches!(receive(&mut s, datagram(b"OMNI\x99")), ReceiveAction::CheckCancel));
    receive(&mut s, turn());
    match receive(&mut s, datagram(b"OMNI\x40")) {
        ReceiveAction::Finish { reply, received } => {
            assert_eq!(reply, b"OMNI\x41");
            assert_eq!(received, 6);
        }
        _ => panic!("not finished"),
    }
    assert!(!s.expects(&turn()));
}

#[test]
fn windows_names_are_cleaned_for_windows() {
    for (platform, name) in [(Platform::Windows, ""), (Platform::Linux, "con")] {
        let mut s = ReceiveSession::new(platform).0;
        match receive(&mut s, datagram(&build_offer(1, "con"))) {
            ReceiveAction::Accept { file_name, .. } => assert_eq!(file_name, name),
            _ => panic!("not accepted"),
        }
    }
}

#[test]
fn actions_say_how_often_and_how_long() {
    let (mut s, action) = SendSession::new("a", 0);
    assert_eq!((action.wait_ms(), action.deadline_ms()), (Some(2_000), Some(60_000)));
    let action = send(&mut s, accepted());
    assert_eq!((action.wait_ms(), action.deadline_ms()), (None, None));
    assert_eq!(SendAction::Nap.wait_ms(), Some(100));
    assert_eq!(SendAction::AwaitAck.wait_ms(), Some(300));
    assert_eq!(SendAction::SendFin(Vec::new()).wait_ms(), Some(500));
    assert_eq!(SendAction::SendData(Vec::new()).wait_ms(), None);
    let (mut s, action) = ReceiveSession::new(Platform::Linux);
    assert!(matches!(action, ReceiveAction::AwaitOffer));
    assert_eq!(
        (action.copies(), action.wait_ms(), action.deadline_ms()),
        (0, None, Some(30_000))
    );
    let action = receive(&mut s, datagram(&build_offer(1, "x")));
    assert_eq!((action.copies(), action.wait_ms(), action.deadline_ms()), (3, None, None));
    let action = receive(&mut s, ReceiveEvent::NameFree);
    assert_eq!((action.copies(), action.wait_ms()), (0, None));
    let action = receive(&mut s, ReceiveEvent::Turn { cancelled: false });
    assert_eq!((action.copies(), action.wait_ms(), action.deadline_ms()), (0, Some(30_000), None));
    let action = receive(&mut s, datagram(&build_data(0, b"a")));
    assert_eq!(action.copies(), 1);
    receive(&mut s, ReceiveEvent::Turn { cancelled: false });
    assert_eq!(receive(&mut s, datagram(&build_offer(1, "x"))).copies(), 3);
    receive(&mut s, ReceiveEvent::Turn { cancelled: false });
    assert_eq!(receive(&mut s, datagram(b"OMNI\x40")).copies(), 3);
}

#[test]
fn errors_have_their_texts() {
    let send = |e: SendError| e.message();
    assert_eq!(send(SendError::Socket), None);
    assert_eq!(send(SendError::File), None);
    assert_eq!(send(SendError::AcceptTimeout), Some("Accept timeout"));
    assert_eq!(send(SendError::Cancelled), Some("Send cancelled"));
    assert_eq!(send(SendError::CancelledWhilePaused), Some("Cancelled while paused"));
    let receive = |e: ReceiveError| e.message();
    assert_eq!(receive(ReceiveError::Socket), None);
    assert_eq!(receive(ReceiveError::OfferTimeout), Some("Offer timeout"));
    assert_eq!(receive(ReceiveError::Cancelled), Some("Transfer cancelled"));
    assert_eq!(receive(ReceiveError::TimedOut), Some("Transfer timed out (no data for 30s)"));
    assert!(ReceiveError::Cancelled.discards_file());
    assert!(!ReceiveError::Socket.discards_file());
    assert!(!ReceiveError::OfferTimeout.discards_file());
    assert!(!ReceiveError::TimedOut.discards_file());
}

#[test]
fn receiving_fails_as_it_should() {
    let mut s = ReceiveSession::new(Platform::Linux).0;
    assert!(matches!(
        receive(&mut s, ReceiveEvent::OfferExpired),
        ReceiveAction::Fail(ReceiveError::OfferTimeout)
    ));
    let mut s = ReceiveSession::new(Platform::Linux).0;
    assert!(matches!(
        receive(&mut s, ReceiveEvent::SocketFailed),
        ReceiveAction::Fail(ReceiveError::Socket)
    ));
    let waiting = || {
        let mut s = ReceiveSession::new(Platform::Linux).0;
        receive(&mut s, datagram(&build_offer(1, "x")));
        receive(&mut s, ReceiveEvent::NameFree);
        s
    };
    let mut s = waiting();
    assert!(matches!(
        receive(&mut s, ReceiveEvent::Turn { cancelled: true }),
        ReceiveAction::Fail(ReceiveError::Cancelled)
    ));
    let mut s = waiting();
    receive(&mut s, ReceiveEvent::Turn { cancelled: false });
    assert!(!s.expects(&datagram(&[0; 1501])));
    assert!(matches!(
        receive(&mut s, ReceiveEvent::Silent),
        ReceiveAction::Fail(ReceiveError::TimedOut)
    ));
}

#[test]
fn sessions_carry_a_file_over_a_lossy_network() {
    let file: Vec<u8> = (0..1_000_000u32).map(|i| (i * 7 + i / 251) as u8).collect();
    let mut position = 0;
    let mut clock: u128 = 0;
    let mut written: Vec<u8> = Vec::new();
    let mut to_sender: Vec<Vec<u8>> = Vec::new();
    let mut dropped = 0;
    let mut finished = None;
    let mut receiver = ReceiveSession::new(Platform::Linux).0;
    let (mut sender, mut action) = SendSession::new("movie.mkv", file.len() as u64);
    // Hands a datagram to the receiver, runs it until it waits again, and keeps its replies.
    let mut transmit = |datagram: &[u8], replies: &mut Vec<Vec<u8>>| {
        let mut event = ReceiveEvent::Received { datagram: datagram.to_vec() };
        if finished.is_some() {
            return;
        }
        loop {
            event = match receive(&mut receiver, event) {
                ReceiveAction::AwaitOffer | ReceiveAction::AwaitData => return,
                ReceiveAction::Accept { reply, file_name } => {
                    assert_eq!(file_name, "movie.mkv");
                    replies.push(reply);
                    ReceiveEvent::NameFree
                }
                ReceiveAction::CreateFile | ReceiveAction::CheckCancel => {
                    ReceiveEvent::Turn { cancelled: false }
                }
                ReceiveAction::Write { chunks, ack, received } => {
                    written.extend(chunks.concat());
                    assert_eq!(received, written.len() as u64);
                    replies.push(ack);
                    ReceiveEvent::Turn { cancelled: false }
                }
                ReceiveAction::AcceptAgain { reply } => {
                    replies.push(reply);
                    ReceiveEvent::Turn { cancelled: false }
                }
                ReceiveAction::Finish { reply, received } => {
                    assert_eq!(written.len() as u64, received);
                    replies.push(reply);
                    finished = Some(written.clone());
                    return;
                }
                ReceiveAction::TryName(_) | ReceiveAction::Fail(_) => panic!("out of line"),
            };
        }
    };
    loop {
        let event = match action {
            SendAction::SendOffer(packet) => {
                transmit(&packet, &mut to_sender);
                SendEvent::OfferReply { reply: to_sender.pop() }
            }
            SendAction::OpenFile => SendEvent::Opened,
            SendAction::CheckCancel | SendAction::Progress(_) => {
                SendEvent::Turn { cancelled: false }
            }
            SendAction::Resend(packets) => {
                for (i, packet) in packets.iter().enumerate() {
                    if i % 3 != 1 {
                        transmit(packet, &mut to_sender);
                    }
                }
                SendEvent::Turn { cancelled: false }
            }
            SendAction::CheckPause | SendAction::Nap => unpaused(),
            SendAction::ReadChunk => {
                let end = (position + 1400).min(file.len());
                let data = file[position..end].to_vec();
                position = end;
                SendEvent::Chunk { data }
            }
            SendAction::SendData(packet) => {
                clock += 1_000_000;
                dropped += 1;
                if dropped % 5 != 3 {
                    transmit(&packet, &mut to_sender);
                }
                SendEvent::Sent { now_nanos: clock }
            }
            SendAction::AwaitAck => match to_sender.pop() {
                Some(datagram) => SendEvent::Received { datagram },
                None => {
                    clock += 300_000_000;
                    SendEvent::Silent { now_nanos: clock }
                }
            },
            SendAction::SendFin(packet) => {
                transmit(&packet, &mut to_sender);
                SendEvent::FinReply { reply: to_sender.pop() }
            }
            SendAction::Finish(bytes) => {
                assert_eq!(bytes, file.len() as u64);
                break;
            }
            SendAction::Fail(e) => panic!("{:?}", e),
        };
        action = send(&mut sender, event);
    }
    assert!(finished == Some(file));
}
