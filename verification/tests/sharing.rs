use std::sync::Arc;
use wificam::decode::FRAME_BYTES;
use wificam::{whole_frame, DecodedFrame, SharedFrameSlot};

fn frame_of(tag: u8) -> DecodedFrame {
    DecodedFrame::new(vec![tag; FRAME_BYTES]).expect("a whole frame")
}

#[test]
fn readers_see_whole_published_frames_only() {
    let mut slot = SharedFrameSlot::new();
    let readers = [slot.reader(), slot.reader(), slot.reader()];
    let mut held = Vec::new();
    for reader in readers.iter() {
        assert!(reader.read().is_empty());
    }
    for tag in 1u8..=12 {
        slot.publish(frame_of(tag));
        for reader in readers.iter() {
            let frame = reader.read();
            assert_eq!(frame.len(), FRAME_BYTES);
            assert_eq!(frame[0], tag);
            assert_eq!(frame[FRAME_BYTES / 2], tag);
            assert_eq!(frame[FRAME_BYTES - 1], tag);
            if tag % 6 == 0 {
                held.push((tag, frame));
            }
        }
    }
    assert_eq!(held.len(), 6);
    for (tag, frame) in held {
        assert_eq!(*frame, vec![tag; FRAME_BYTES]);
    }
    assert_eq!(*slot.read(), vec![12u8; FRAME_BYTES]);
}

#[test]
fn reader_outlives_the_publisher() {
    let mut slot = SharedFrameSlot::new();
    let reader = slot.reader();
    slot.publish(frame_of(5));
    drop(slot);
    assert_eq!(*reader.read(), vec![5u8; FRAME_BYTES]);
}

#[test]
fn readers_of_one_slot_do_not_see_another() {
    let mut first = SharedFrameSlot::new();
    let second = SharedFrameSlot::new();
    let reader_of_first = first.reader();
    let reader_of_second = second.reader();
    first.publish(frame_of(3));
    assert_eq!(*reader_of_first.read(), vec![3u8; FRAME_BYTES]);
    assert!(reader_of_second.read().is_empty());
    assert!(second.read().is_empty());
}

#[test]
fn only_whole_frames_are_handed_to_the_renderer() {
    assert!(whole_frame(Arc::new(Vec::new())).is_none());
    assert!(whole_frame(Arc::new(vec![1u8; FRAME_BYTES - 1])).is_none());
    assert!(whole_frame(Arc::new(vec![1u8; FRAME_BYTES + 1])).is_none());
    let frame = Arc::new(vec![9u8; FRAME_BYTES]);
    let whole = whole_frame(Arc::clone(&frame)).expect("a whole frame");
    assert!(Arc::ptr_eq(&whole, &frame));

    let mut slot = SharedFrameSlot::new();
    let reader = slot.reader();
    assert!(reader.read_whole().is_none());
    slot.publish(frame_of(4));
    assert_eq!(*reader.read_whole().expect("a whole frame"), vec![4u8; FRAME_BYTES]);
    slot.publish(frame_of(6));
    assert_eq!(*reader.read_whole().expect("a whole frame"), vec![6u8; FRAME_BYTES]);
}

#[test]
fn reader_sees_what_its_slot_holds() {
    let mut slot = SharedFrameSlot::new();
    let reader = slot.reader();
    assert!(reader.read_current(&slot).is_empty());
    for tag in [7u8, 8, 9] {
        slot.publish(frame_of(tag));
        let seen = reader.read_current(&slot);
        assert_eq!(*seen, vec![tag; FRAME_BYTES]);
        assert!(Arc::ptr_eq(&seen, &slot.read()));
    }
}
