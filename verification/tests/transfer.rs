use omniget::bytes::{be_bytes_u32, be_bytes_u64, be_value_u32, be_value_u64, le_bytes_u32};
use omniget::files::{safe_file_name, split_file_name, NameSearch, Platform};
use omniget::packet::{
    build_ack, build_data, build_offer, build_simple, parse_ack, parse_data, parse_offer,
    parse_pkt, PKT_ACCEPT, PKT_ACK, PKT_DATA, PKT_FIN, PKT_FIN_ACK, PKT_OFFER, PKT_PUNCH,
    PKT_PUNCH_ACK,
};
use omniget::punch::{
    punch_to_sender, wait_for_punch, PunchAction, PunchEvent, WaitAction, WaitEvent,
};
use omniget::receiver::{FileReceiver, ReceiveStep};
use omniget::sender::{
    fin_acknowledged, fin_packet, offer_accepted, FileSender, SendStep, WINDOW,
};

#[test]
fn integers_are_big_endian() {
    assert_eq!(be_bytes_u32(0x01020304), vec![1, 2, 3, 4]);
    assert_eq!(be_value_u32(&[1, 2, 3, 4]), 0x01020304);
    assert_eq!(be_bytes_u64(0x0102030405060708), vec![1, 2, 3, 4, 5, 6, 7, 8]);
    assert_eq!(be_value_u64(&[1, 2, 3, 4, 5, 6, 7, 8]), 0x0102030405060708);
    for x in [0u64, 1, 255, 256, u32::MAX as u64, u32::MAX as u64 + 1, u64::MAX] {
        assert_eq!(be_bytes_u64(x), x.to_be_bytes());
        assert_eq!(be_value_u64(&x.to_be_bytes()), x);
        assert_eq!(le_bytes_u32(x as u32), (x as u32).to_le_bytes());
    }
}

#[test]
fn packets_have_magic_type_and_payload() {
    assert_eq!(build_simple(PKT_PUNCH, b"ab"), b"OMNI\x10ab");
    assert_eq!(build_data(0x01020304, b"xy"), b"OMNI\x30\x01\x02\x03\x04xy");
    assert_eq!(build_ack(5), b"OMNI\x31\x00\x00\x00\x05");
    assert_eq!(build_offer(258, "n"), b"OMNI\x20\x00\x00\x00\x00\x00\x00\x01\x02n");
    assert_eq!(
        [PKT_PUNCH, PKT_PUNCH_ACK, PKT_OFFER, PKT_ACCEPT, PKT_DATA, PKT_ACK, PKT_FIN, PKT_FIN_ACK],
        [0x10, 0x11, 0x20, 0x21, 0x30, 0x31, 0x40, 0x41]
    );
}

#[test]
fn packets_parse_into_their_parts() {
    assert_eq!(parse_pkt(b"OMNI\x40"), Some((PKT_FIN, &b""[..])));
    assert_eq!(parse_pkt(b"OMNI\x30abc"), Some((PKT_DATA, &b"abc"[..])));
    assert_eq!(parse_pkt(b"OMNI"), None);
    assert_eq!(parse_pkt(b"OMNJ\x40"), None);
    assert_eq!(parse_pkt(b""), None);
    assert_eq!(parse_data(&build_data(7, b"hello")), Some((7, &b"hello"[..])));
    assert_eq!(parse_data(b"OMNI\x30\x00\x00\x00"), None);
    assert_eq!(parse_data(&build_ack(7)), None);
    assert_eq!(parse_ack(&build_ack(u32::MAX - 1)), Some(u32::MAX - 1));
    assert_eq!(parse_ack(b"OMNI\x31\x00"), None);
    assert_eq!(parse_ack(b"OMNI\x31\x00\x00\x00\x09tail"), Some(9));
}

#[test]
fn offers_keep_size_and_name() {
    let name = "r\u{e9}sum\u{e9} \u{1f4c4}.pdf";
    assert_eq!(parse_offer(&build_offer(u64::MAX, name)), Some((u64::MAX, name.to_string())));
    assert_eq!(parse_offer(&build_offer(0, "")), Some((0, String::new())));
    let mut broken = build_offer(3, "");
    broken.push(0xff);
    assert_eq!(parse_offer(&broken), Some((3, "file".to_string())));
    assert_eq!(parse_offer(b"OMNI\x20\x00\x00"), None);
    assert_eq!(parse_offer(&build_simple(PKT_ACCEPT, &[0; 9])), None);
}

#[test]
fn waiting_side_answers_the_right_hash_only() {
    let punch = build_simple(PKT_PUNCH, b"hash");
    match wait_for_punch(&WaitEvent::Received(punch.clone()), "hash") {
        WaitAction::Answer(ack) => {
            assert_eq!(ack, b"OMNI\x11hash");
            assert_eq!(WaitAction::Answer(ack).copies(), 3);
        }
        _ => panic!("no answer"),
    }
    assert!(matches!(wait_for_punch(&WaitEvent::Received(punch), "other"), WaitAction::KeepWaiting));
    let ack = build_simple(PKT_PUNCH_ACK, b"hash");
    assert!(matches!(wait_for_punch(&WaitEvent::Received(ack), "hash"), WaitAction::KeepWaiting));
    let broken = build_simple(PKT_PUNCH, &[0xff]);
    assert!(matches!(wait_for_punch(&WaitEvent::Received(broken), "hash"), WaitAction::KeepWaiting));
    assert!(matches!(wait_for_punch(&WaitEvent::SocketFailed, "hash"), WaitAction::FailSocket));
    assert!(matches!(wait_for_punch(&WaitEvent::Cancelled, "hash"), WaitAction::FailCancelled));
}

#[test]
fn punching_side_repeats_until_answered() {
    let round = PunchEvent::Round { elapsed_nanos: 10, timeout_nanos: 10 };
    match punch_to_sender(&round, "hash") {
        PunchAction::Send(p) => {
            assert_eq!(p, b"OMNI\x10hash");
            assert_eq!(PunchAction::Send(p).wait_ms(), Some(500));
        }
        _ => panic!("no punch"),
    }
    let late = PunchEvent::Round { elapsed_nanos: 11, timeout_nanos: 10 };
    assert!(matches!(punch_to_sender(&late, "hash"), PunchAction::FailTimeout));
    let ack = PunchEvent::Received(build_simple(PKT_PUNCH_ACK, b"hash"));
    assert!(matches!(punch_to_sender(&ack, "hash"), PunchAction::Connected));
    assert!(matches!(punch_to_sender(&ack, "hasH"), PunchAction::NextRound));
    assert!(matches!(punch_to_sender(&PunchEvent::Quiet, "hash"), PunchAction::NextRound));
    assert!(matches!(punch_to_sender(&PunchEvent::Cancelled, "hash"), PunchAction::FailCancelled));
}

#[test]
fn failed_punches_have_their_texts() {
    let timeout = PunchAction::FailTimeout.message("1s");
    assert_eq!(timeout.as_deref(), Some("Hole punch timed out after 1s"));
    let cancelled = PunchAction::FailCancelled.message("1s");
    assert_eq!(cancelled.as_deref(), Some("Cancelled during hole punch"));
    assert_eq!(PunchAction::Connected.message("1s"), None);
    assert_eq!(PunchAction::NextRound.message("1s"), None);
    assert_eq!(WaitAction::FailCancelled.message(), Some("Cancelled"));
    assert_eq!(WaitAction::FailSocket.message(), None);
    assert_eq!(WaitAction::KeepWaiting.message(), None);
    assert_eq!(WaitAction::KeepWaiting.copies(), 0);
    assert_eq!(PunchAction::NextRound.wait_ms(), None);
}

#[test]
fn replies_are_told_apart() {
    assert!(offer_accepted(b"OMNI\x21"));
    assert!(!offer_accepted(&build_offer(1, "a")));
    assert_eq!(fin_packet(), b"OMNI\x40");
    assert!(fin_acknowledged(b"OMNI\x41"));
    assert!(!fin_acknowledged(&fin_packet()));
}

#[test]
fn window_closes_and_opens() {
    let mut sender = FileSender::new(1_000_000);
    for i in 0..WINDOW {
        assert_eq!(sender.next_step(), SendStep::ReadChunk);
        assert_eq!(sender.packet_for(&[7; 1400]), build_data(i, &[7; 1400]));
        sender.on_chunk(&[7; 1400], 0);
    }
    assert_eq!(sender.next_step(), SendStep::AwaitAck);
    assert_eq!(sender.on_datagram(b"noise"), None);
    assert_eq!(sender.on_datagram(&build_ack(1)), Some(2800));
    assert_eq!(sender.next_step(), SendStep::ReadChunk);
    assert_eq!(sender.on_datagram(&build_ack(0)), Some(2800));
    sender.on_chunk(&[], 0);
    assert_eq!(sender.next_step(), SendStep::AwaitAck);
    assert_eq!(sender.on_datagram(&build_ack(255)), Some(256 * 1400));
    assert_eq!(sender.next_step(), SendStep::Finish);
}

#[test]
fn progress_stops_at_the_size_of_the_file() {
    let mut sender = FileSender::new(5);
    sender.on_chunk(b"hello", 0);
    assert_eq!(sender.on_datagram(&build_ack(0)), Some(5));
}

#[test]
fn empty_file_is_finished_at_once() {
    let mut sender = FileSender::new(0);
    sender.on_end();
    assert_eq!(sender.next_step(), SendStep::Finish);
    assert!(sender.numbers_left());
}

#[test]
fn due_packets_are_sent_again_in_order() {
    let mut sender = FileSender::new(100);
    sender.on_chunk(b"a", 0);
    sender.on_chunk(b"b", 100_000_000);
    sender.on_chunk(b"c", 0);
    let [a, b, c] = [build_data(0, b"a"), build_data(1, b"b"), build_data(2, b"c")];
    assert!(sender.on_timeout(299_999_999).is_empty());
    assert_eq!(sender.on_timeout(300_000_000), vec![a, c]);
    assert!(sender.on_timeout(300_000_001).is_empty());
    assert_eq!(sender.on_timeout(400_000_000), vec![b]);
    assert!(sender.on_timeout(0).is_empty());
}

fn deliver(receiver: &mut FileReceiver, out: &mut Vec<u8>, datagram: &[u8]) -> Vec<u8> {
    assert!(receiver.can_take(datagram));
    match receiver.on_datagram(datagram) {
        ReceiveStep::Deliver { chunks, ack } => {
            for c in chunks {
                out.extend_from_slice(&c);
            }
            ack
        }
        _ => panic!("not data"),
    }
}

#[test]
fn chunks_are_put_in_order_once() {
    let mut receiver = FileReceiver::new();
    let mut out = Vec::new();
    // Before the first chunk the acknowledgement is zero as well.
    assert_eq!(deliver(&mut receiver, &mut out, &build_data(2, b"C")), build_ack(0));
    assert_eq!(deliver(&mut receiver, &mut out, &build_data(1, b"B")), build_ack(0));
    assert_eq!(deliver(&mut receiver, &mut out, &build_data(2, b"X")), build_ack(0));
    assert!(out.is_empty());
    assert_eq!(deliver(&mut receiver, &mut out, &build_data(0, b"A")), build_ack(2));
    assert_eq!(out, b"ABC");
    assert_eq!(deliver(&mut receiver, &mut out, &build_data(1, b"B")), build_ack(2));
    assert_eq!(out, b"ABC");
    assert_eq!(receiver.received_bytes(), 3);
}

#[test]
fn writing_ends_at_the_first_gap() {
    let mut receiver = FileReceiver::new();
    let mut out = Vec::new();
    for (number, data) in [(4, b"E"), (1, b"B"), (0, b"A"), (5, b"F"), (2, b"C"), (1, b"B")] {
        deliver(&mut receiver, &mut out, &build_data(number, data));
    }
    assert_eq!(out, b"ABC");
    assert_eq!(deliver(&mut receiver, &mut out, &build_data(3, b"D")), build_ack(5));
    assert_eq!(out, b"ABCDEF");
}

#[test]
fn chunks_too_far_ahead_are_dropped() {
    let mut receiver = FileReceiver::new();
    let mut out = Vec::new();
    deliver(&mut receiver, &mut out, &build_data(512, b"far"));
    deliver(&mut receiver, &mut out, &build_data(511, b"edge"));
    for i in 0..511 {
        deliver(&mut receiver, &mut out, &build_data(i, b"."));
    }
    assert_eq!(out.len(), 511 + 4);
    assert_eq!(deliver(&mut receiver, &mut out, &build_data(512, b"!")), build_ack(512));
}

#[test]
fn other_packets_are_answered_or_ignored() {
    let mut receiver = FileReceiver::new();
    match receiver.on_datagram(&fin_packet()) {
        ReceiveStep::Finish { reply } => assert_eq!(reply, b"OMNI\x41"),
        _ => panic!("not finished"),
    }
    match receiver.on_datagram(&build_offer(1, "x")) {
        ReceiveStep::AcceptAgain { reply } => assert_eq!(reply, b"OMNI\x21"),
        _ => panic!("not accepted"),
    }
    for d in [&b"OMNI\x30\x00"[..], b"junk", b"OMNI\x31\x00\x00\x00\x00", b"OMNI\x99"] {
        assert!(matches!(receiver.on_datagram(d), ReceiveStep::Ignore));
    }
    assert!(!receiver.can_take(&[0; 1501]));
    assert!(!receiver.can_take(&build_data(u32::MAX, &[0; 1492])));
}

#[test]
fn lossy_network_delivers_the_file() {
    let file: Vec<u8> = (0..1_000_000u32).map(|i| (i * 7 % 251) as u8).collect();
    let mut sender = FileSender::new(file.len() as u64);
    let mut receiver = FileReceiver::new();
    let mut out = Vec::new();
    let mut pos = 0;
    let mut now: u128 = 0;
    let mut seed: u32 = 12345;
    let mut wire: Vec<Vec<u8>> = Vec::new();
    let mut acks: Vec<Vec<u8>> = Vec::new();
    // The first packet goes through; any other is lost, repeated or reordered.
    let mut first = true;
    loop {
        match sender.next_step() {
            SendStep::ReadChunk => {
                let end = (pos + 1400).min(file.len());
                let p = sender.packet_for(&file[pos..end]);
                sender.on_chunk(&file[pos..end], now);
                if first {
                    acks.push(deliver(&mut receiver, &mut out, &p));
                    first = false;
                }
                if pos < end {
                    wire.push(p);
                }
                pos = end;
            }
            SendStep::Finish => break,
            SendStep::AwaitAck => {
                now += 400_000_000;
                for p in sender.on_timeout(now) {
                    wire.push(p);
                }
                wire.reverse();
                for p in wire.drain(..) {
                    seed = seed.wrapping_mul(1664525).wrapping_add(1013904223);
                    if seed >> 30 != 0 {
                        acks.push(deliver(&mut receiver, &mut out, &p));
                    }
                    if seed >> 31 == 1 {
                        acks.push(deliver(&mut receiver, &mut out, &p));
                    }
                }
                for a in acks.drain(..) {
                    seed = seed.wrapping_mul(1664525).wrapping_add(1013904223);
                    if seed >> 31 == 1 {
                        sender.on_datagram(&a);
                    }
                }
            }
        }
    }
    assert_eq!(out, file);
    assert_eq!(receiver.received_bytes(), file.len() as u64);
}

#[test]
fn file_names_are_cleaned() {
    assert_eq!(safe_file_name("../../etc/pass?wd", Platform::Linux), "....etcpasswd");
    assert_eq!(safe_file_name("..", Platform::Linux), "");
    assert_eq!(safe_file_name("a\\b:c", Platform::Linux), "abc");
    assert_eq!(safe_file_name("nul", Platform::Linux), "nul");
    assert_eq!(safe_file_name("nul", Platform::Windows), "");
    assert_eq!(safe_file_name("dot. ", Platform::Windows), "dot");
    assert_eq!(safe_file_name("plain.txt", Platform::MacOs), "plain.txt");
}

#[test]
fn file_names_split_as_paths_do() {
    for name in ["a.txt", "a.tar.gz", ".bashrc", "noext", "trail.", ".a.b", "a..b", "...", "\u{e9}.x"] {
        let path = std::path::Path::new(name);
        let stem = path.file_stem().map(|s| s.to_string_lossy().to_string()).unwrap_or_default();
        let ext = path.extension().map(|e| format!(".{}", e.to_string_lossy())).unwrap_or_default();
        assert_eq!(split_file_name(name), (stem, ext), "{name}");
    }
    assert_eq!(split_file_name(".."), ("..".to_string(), String::new()));
    assert_eq!(split_file_name(""), (String::new(), String::new()));
}

#[test]
fn taken_names_are_numbered() {
    let mut search = NameSearch::new(Some("movie.part.mp4"));
    assert_eq!(search.candidate(), "movie.part (1).mp4");
    for _ in 0..11 {
        assert!(search.has_next());
        search.advance();
    }
    assert_eq!(search.candidate(), "movie.part (12).mp4");
    assert_eq!(NameSearch::new(Some("README")).candidate(), "README (1)");
    assert_eq!(NameSearch::new(None).candidate(), " (1)");
}
