use wificam::reassembly::FRAME_BUFFER_CAPACITY;
use wificam::{Error, FrameReceptionState, Progress, Reassembler, UDPFrameHeader};

fn fragment(packet: u16, frame: u8, index: u8, total: u8, payload: &[u8]) -> Vec<u8> {
    let length = (payload.len() + 9) as u32;
    let mut bytes = vec![(packet >> 8) as u8, packet as u8, frame, index, total];
    bytes.extend_from_slice(&length.to_be_bytes());
    bytes.extend_from_slice(payload);
    bytes
}

fn assembling(received: u8, required: u8, frame_number: u8, last_packet_number: u16) -> FrameReceptionState {
    FrameReceptionState::AssemblingSubpackets { received, required, frame_number, last_packet_number }
}

#[test]
fn single_fragment_frame_is_complete_at_once() {
    let mut machine = Reassembler::new();
    let payload = [9u8, 8, 7, 6, 5];
    let answer = machine.receive(&fragment(40, 3, 0, 1, &payload));
    assert_eq!(answer, Ok(Progress::Completed));
    assert_eq!(machine.assembled(), &payload[..]);
    assert_eq!(machine.current_state(), FrameReceptionState::WaitingForFrameStart);
}

#[test]
fn single_fragment_with_empty_payload() {
    let mut machine = Reassembler::new();
    assert_eq!(machine.receive(&fragment(0, 0, 0, 1, &[])), Ok(Progress::Completed));
    assert!(machine.assembled().is_empty());
}

#[test]
fn fragments_in_order_are_joined() {
    let mut machine = Reassembler::new();
    assert_eq!(machine.receive(&fragment(100, 7, 0, 3, &[1, 2, 3])), Ok(Progress::Stored));
    assert_eq!(machine.current_state(), assembling(1, 3, 7, 100));
    assert_eq!(machine.receive(&fragment(101, 7, 1, 3, &[4])), Ok(Progress::Stored));
    assert_eq!(machine.current_state(), assembling(2, 3, 7, 101));
    assert_eq!(machine.assembled(), &[1u8, 2, 3, 4][..]);
    assert_eq!(machine.receive(&fragment(102, 7, 2, 3, &[5, 6])), Ok(Progress::Completed));
    assert_eq!(machine.assembled(), &[1u8, 2, 3, 4, 5, 6][..]);
    assert_eq!(machine.current_state(), FrameReceptionState::WaitingForFrameStart);
}

#[test]
fn packet_numbers_wrap() {
    let mut machine = Reassembler::new();
    assert_eq!(machine.receive(&fragment(65535, 255, 0, 2, &[1])), Ok(Progress::Stored));
    assert_eq!(machine.receive(&fragment(0, 255, 1, 2, &[2])), Ok(Progress::Completed));
    assert_eq!(machine.assembled(), &[1u8, 2][..]);
}

#[test]
fn fragment_without_a_start_is_ignored() {
    let mut machine = Reassembler::new();
    assert_eq!(machine.receive(&fragment(5, 1, 2, 4, &[1, 2])), Ok(Progress::Ignored));
    assert_eq!(machine.current_state(), FrameReceptionState::WaitingForFrameStart);
    assert!(machine.assembled().is_empty());
}

#[test]
fn skipped_fragment_resets() {
    let mut machine = Reassembler::new();
    assert_eq!(machine.receive(&fragment(10, 4, 0, 5, &[1, 1])), Ok(Progress::Stored));
    assert_eq!(machine.receive(&fragment(11, 4, 1, 5, &[2, 2])), Ok(Progress::Stored));
    assert_eq!(machine.receive(&fragment(12, 4, 4, 5, &[3, 3])), Err(Error::SubpacketOutOfOrder));
    assert_eq!(machine.current_state(), FrameReceptionState::WaitingForFrameStart);
    assert!(machine.assembled().is_empty());
    assert_eq!(machine.receive(&fragment(13, 4, 2, 5, &[3, 3])), Ok(Progress::Ignored));
}

#[test]
fn packet_out_of_sequence_resets() {
    let mut machine = Reassembler::new();
    assert_eq!(machine.receive(&fragment(10, 4, 0, 3, &[1])), Ok(Progress::Stored));
    assert_eq!(machine.receive(&fragment(12, 4, 1, 3, &[2])), Err(Error::PacketOutOfOrder));
    assert_eq!(machine.current_state(), FrameReceptionState::WaitingForFrameStart);
    assert!(machine.assembled().is_empty());
}

#[test]
fn repeated_packet_resets() {
    let mut machine = Reassembler::new();
    assert_eq!(machine.receive(&fragment(10, 4, 0, 3, &[1])), Ok(Progress::Stored));
    assert_eq!(machine.receive(&fragment(10, 4, 0, 3, &[1])), Err(Error::PacketOutOfOrder));
}

#[test]
fn fragment_of_another_frame_resets() {
    let mut machine = Reassembler::new();
    assert_eq!(machine.receive(&fragment(10, 4, 0, 3, &[1, 2, 3])), Ok(Progress::Stored));
    assert_eq!(machine.receive(&fragment(11, 5, 1, 3, &[9])), Err(Error::ForeignFrame));
    assert_eq!(machine.current_state(), FrameReceptionState::WaitingForFrameStart);
    assert!(machine.assembled().is_empty());
    assert_eq!(machine.receive(&fragment(12, 5, 0, 1, &[7, 7])), Ok(Progress::Completed));
    assert_eq!(machine.assembled(), &[7u8, 7][..]);
}

#[test]
fn checks_are_made_in_order() {
    let mut machine = Reassembler::new();
    assert_eq!(machine.receive(&fragment(10, 4, 0, 3, &[1])), Ok(Progress::Stored));
    assert_eq!(machine.receive(&fragment(99, 5, 2, 3, &[1])), Err(Error::PacketOutOfOrder));
    assert_eq!(machine.receive(&fragment(10, 4, 0, 3, &[1])), Ok(Progress::Stored));
    assert_eq!(machine.receive(&fragment(11, 5, 2, 3, &[1])), Err(Error::ForeignFrame));
}

#[test]
fn short_datagram_changes_nothing() {
    let mut machine = Reassembler::new();
    assert_eq!(machine.receive(&[]), Err(Error::ShortDatagram));
    assert_eq!(machine.receive(&[0u8; 8]), Err(Error::ShortDatagram));
    assert_eq!(machine.receive(&fragment(10, 4, 0, 2, &[1, 2])), Ok(Progress::Stored));
    assert_eq!(machine.receive(&[0u8, 11, 4, 1, 2, 0, 0, 0]), Err(Error::ShortDatagram));
    assert_eq!(machine.current_state(), assembling(1, 2, 4, 10));
    assert_eq!(machine.assembled(), &[1u8, 2][..]);
    assert_eq!(machine.receive(&fragment(11, 4, 1, 2, &[3])), Ok(Progress::Completed));
    assert_eq!(machine.assembled(), &[1u8, 2, 3][..]);
}

#[test]
fn header_alone_is_a_fragment_without_payload() {
    let mut machine = Reassembler::new();
    assert_eq!(machine.receive(&[0u8, 1, 0, 0, 2, 0, 0, 0, 9]), Ok(Progress::Stored));
    assert!(machine.assembled().is_empty());
}

#[test]
fn wrong_declared_length_is_not_a_reason_to_refuse() {
    let mut machine = Reassembler::new();
    let mut bytes = fragment(1, 1, 0, 1, &[5, 5, 5]);
    bytes[8] = 200;
    let header = UDPFrameHeader::from(&bytes[..]);
    assert!(!header.length_matches(bytes.len()));
    assert_eq!(machine.receive(&bytes), Ok(Progress::Completed));
    assert_eq!(machine.assembled(), &[5u8, 5, 5][..]);
}

#[test]
fn first_fragment_larger_than_the_buffer_is_refused() {
    let mut machine = Reassembler::new();
    let payload = vec![0u8; FRAME_BUFFER_CAPACITY + 1];
    assert_eq!(machine.receive(&fragment(1, 1, 0, 2, &payload)), Err(Error::BufferOverflow));
    assert_eq!(machine.current_state(), FrameReceptionState::WaitingForFrameStart);
    assert!(machine.assembled().is_empty());
}

#[test]
fn buffer_may_be_filled_to_the_brim() {
    assert_eq!(FRAME_BUFFER_CAPACITY, 128 * 1024);
    let mut machine = Reassembler::new();
    let half = vec![3u8; FRAME_BUFFER_CAPACITY / 2];
    assert_eq!(machine.receive(&fragment(1, 1, 0, 3, &half)), Ok(Progress::Stored));
    assert_eq!(machine.receive(&fragment(2, 1, 1, 3, &half)), Ok(Progress::Stored));
    assert_eq!(machine.assembled().len(), FRAME_BUFFER_CAPACITY);
    assert_eq!(machine.receive(&fragment(3, 1, 2, 3, &[])), Ok(Progress::Completed));
    assert_eq!(machine.assembled().len(), FRAME_BUFFER_CAPACITY);
}

#[test]
fn overflow_in_mid_frame_resets() {
    let mut machine = Reassembler::new();
    let half = vec![3u8; FRAME_BUFFER_CAPACITY / 2];
    assert_eq!(machine.receive(&fragment(1, 1, 0, 3, &half)), Ok(Progress::Stored));
    assert_eq!(machine.receive(&fragment(2, 1, 1, 3, &half)), Ok(Progress::Stored));
    assert_eq!(machine.receive(&fragment(3, 1, 2, 3, &[1])), Err(Error::BufferOverflow));
    assert_eq!(machine.current_state(), FrameReceptionState::WaitingForFrameStart);
    assert!(machine.assembled().is_empty());
}

#[test]
fn total_is_taken_from_the_first_fragment() {
    let mut machine = Reassembler::new();
    assert_eq!(machine.receive(&fragment(1, 1, 0, 3, &[1])), Ok(Progress::Stored));
    assert_eq!(machine.receive(&fragment(2, 1, 1, 2, &[2])), Ok(Progress::Stored));
    assert_eq!(machine.current_state(), assembling(2, 3, 1, 2));
    assert_eq!(machine.receive(&fragment(3, 1, 2, 9, &[3])), Ok(Progress::Completed));
    assert_eq!(machine.assembled(), &[1u8, 2, 3][..]);
}

#[test]
fn new_start_replaces_a_completed_frame() {
    let mut machine = Reassembler::new();
    assert_eq!(machine.receive(&fragment(1, 1, 0, 1, &[1, 2, 3, 4])), Ok(Progress::Completed));
    assert_eq!(machine.receive(&fragment(2, 2, 0, 2, &[9])), Ok(Progress::Stored));
    assert_eq!(machine.assembled(), &[9u8][..]);
}

#[test]
fn accept_takes_header_and_payload_apart() {
    let mut machine = Reassembler::new();
    let header = UDPFrameHeader {
        packet_number: 7,
        frame_number: 1,
        sub_packet_number: 0,
        total_sub_packets: 1,
        packet_length: 11,
    };
    assert_eq!(machine.accept(&header, &[4, 2]), Ok(Progress::Completed));
    assert_eq!(machine.assembled(), &[4u8, 2][..]);
}

#[test]
fn frame_of_255_fragments() {
    let mut machine = Reassembler::new();
    let mut expected: Vec<u8> = Vec::new();
    for index in 0u16..255 {
        let payload = [index as u8, 0xEE];
        expected.extend_from_slice(&payload);
        let answer = machine.receive(&fragment(65000u16.wrapping_add(index), 9, index as u8, 255, &payload));
        if index < 254 {
            assert_eq!(answer, Ok(Progress::Stored));
        } else {
            assert_eq!(answer, Ok(Progress::Completed));
        }
    }
    assert_eq!(machine.assembled(), &expected[..]);
}
