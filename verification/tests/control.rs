use wificam::control::{
    init_sequence, keepalive_sequence, outcome_of_read, react, ControlAction, KeepaliveAction,
    KeepaliveTimer, ReadOutcome, KEEPALIVE_INTERVAL_MS,
};
use wificam::TcpMessage;

#[test]
fn initialization_reply_is_recognised() {
    let bytes = [0x0Du8, 0x02, 0xD0, 0xD0, 0x0E, 0x01, 0xAF, 0xE0];
    assert!(matches!(TcpMessage::from(&bytes[..]), TcpMessage::Initialization));
}

#[test]
fn yellow_wire_high_is_recognised() {
    let bytes = [0x0Bu8, 0x01, 0xC0, 0xB0];
    assert!(matches!(TcpMessage::from(&bytes[..]), TcpMessage::YellowWireHigh));
}

#[test]
fn yellow_wire_low_is_recognised() {
    let bytes = [0x0Bu8, 0x00, 0xC0, 0xB0];
    assert!(matches!(TcpMessage::from(&bytes[..]), TcpMessage::YellowWireLow));
}

#[test]
fn keepalive_acknowledgement_is_recognised() {
    let bytes = [0x0Eu8, 0x01, 0xAF, 0xE0];
    assert!(matches!(TcpMessage::from(&bytes[..]), TcpMessage::KeepaliveAcknowledgement));
}

#[test]
fn empty_reply_is_opaque() {
    match TcpMessage::from(&[][..]) {
        TcpMessage::Other(bytes) => assert!(bytes.is_empty()),
        other => panic!("unexpected {:?}", other),
    }
}

#[test]
fn other_replies_keep_their_bytes() {
    let cases: Vec<Vec<u8>> = vec![
        vec![0x0B, 0x02, 0xC0, 0xB0],
        vec![0x0E, 0x01, 0xAF],
        vec![0x0E, 0x01, 0xAF, 0xE0, 0x00],
        vec![0x0D, 0x02, 0xD0, 0xD0],
        vec![0x0D, 0x02, 0xD0, 0xD0, 0x0E, 0x01, 0xAF, 0xE1],
        vec![0x00],
        (0u16..256).map(|b| b as u8).collect(),
    ];
    for case in cases {
        match TcpMessage::from(&case[..]) {
            TcpMessage::Other(bytes) => assert_eq!(bytes, case),
            other => panic!("unexpected {:?}", other),
        }
    }
}

#[test]
fn outbound_sequences() {
    assert_eq!(
        init_sequence(),
        vec![
            0x01, 0x01, 0x02, 0x10, 0x02, 0x01, 0x03, 0x20, 0x02, 0x01, 0x03, 0x20, 0x0e, 0x01,
            0xaf, 0xe0, 0x24, 0x01, 0xc0, 0x42
        ]
    );
    assert_eq!(init_sequence().len(), 20);
    assert_eq!(keepalive_sequence(), vec![0x0e, 0x01, 0xaf, 0xe0]);
}

#[test]
fn keepalive_waits_for_the_full_interval() {
    assert_eq!(KEEPALIVE_INTERVAL_MS, 1000);
    let mut timer = KeepaliveTimer::new(5_000);
    assert_eq!(timer.poll(5_000), KeepaliveAction::Wait);
    assert_eq!(timer.poll(5_500), KeepaliveAction::Wait);
    assert_eq!(timer.poll(5_999), KeepaliveAction::Wait);
    assert_eq!(timer.last_sent_ms, 5_000);
    assert_eq!(timer.poll(6_000), KeepaliveAction::Send);
    assert_eq!(timer.last_sent_ms, 6_000);
    assert_eq!(timer.poll(6_001), KeepaliveAction::Wait);
    assert_eq!(timer.poll(6_999), KeepaliveAction::Wait);
    assert_eq!(timer.poll(8_500), KeepaliveAction::Send);
    assert_eq!(timer.last_sent_ms, 8_500);
}

#[test]
fn keepalive_ignores_a_clock_that_ran_backwards() {
    let mut timer = KeepaliveTimer::new(10_000);
    assert_eq!(timer.poll(0), KeepaliveAction::Wait);
    assert_eq!(timer.poll(9_999), KeepaliveAction::Wait);
    assert_eq!(timer.last_sent_ms, 10_000);
}

#[test]
fn keepalive_near_the_end_of_the_clock() {
    let mut timer = KeepaliveTimer::new(u64::MAX - 10);
    assert_eq!(timer.poll(u64::MAX), KeepaliveAction::Wait);
    let mut early = KeepaliveTimer::new(0);
    assert_eq!(early.poll(u64::MAX), KeepaliveAction::Send);
    assert_eq!(early.last_sent_ms, u64::MAX);
}

#[test]
fn reads_lead_to_actions() {
    let ack = [0x0Eu8, 0x01, 0xAF, 0xE0];
    assert!(matches!(
        react(ReadOutcome::Data, &ack[..]),
        ControlAction::Forward(TcpMessage::KeepaliveAcknowledgement)
    ));
    match react(ReadOutcome::Data, &[1u8, 2, 3][..]) {
        ControlAction::Forward(TcpMessage::Other(bytes)) => assert_eq!(bytes, vec![1u8, 2, 3]),
        other => panic!("unexpected {:?}", other),
    }
    assert!(matches!(react(ReadOutcome::TimedOut, &ack[..]), ControlAction::Continue));
    assert!(matches!(react(ReadOutcome::Failed, &ack[..]), ControlAction::Report));
    assert!(matches!(react(ReadOutcome::Disconnected, &ack[..]), ControlAction::Stop));
}

#[test]
fn a_read_of_nothing_means_the_connection_is_gone() {
    assert_eq!(outcome_of_read(0), ReadOutcome::Disconnected);
    assert_eq!(outcome_of_read(1), ReadOutcome::Data);
    assert_eq!(outcome_of_read(256), ReadOutcome::Data);
    assert_eq!(outcome_of_read(usize::MAX), ReadOutcome::Data);
    assert!(matches!(react(outcome_of_read(0), &[][..]), ControlAction::Stop));
}
