//! The whole path of a datagram: reassembly, decoding, publication.

use vstd::prelude::*;
use crate::decode::{
    checked_frame, decode_jpeg_frame, empty_or_whole, frame_model, jpeg_decoded, starts_as_jpeg,
    DecodeError, DecodedFrame,
};
use crate::header::{header_of, payload_of, UDPFrameHeader};
use crate::reassembly::{
    data_after, datagram_verdict, state_after, Error, FrameReceptionState, Progress, Reassembler,
};
use crate::slot::{FrameReader, SharedFrameSlot};

verus! {

/// What became of a datagram that the state machine did not refuse.
#[derive(Clone, Copy, Debug, PartialEq, Eq, Structural)]
pub enum Delivery {
    /// No frame was in progress and the fragment does not start one.
    Ignored,
    /// The fragment was buffered and more are awaited.
    Stored,
    /// The fragment completed a frame, which was decoded and published.
    Published,
    /// The fragment completed a frame, which was not published for the reason
    /// given.
    Rejected(DecodeError),
}

/// The frame that is published once a decoding attempt has ended as
/// `decoded`, where `current` was published before: the new frame if there is
/// one, and the old one if not.
pub open spec fn published_after(current: Seq<u8>, decoded: Result<Seq<u8>, DecodeError>) -> Seq<
    u8,
> {
    match decoded {
        Ok(pixels) => pixels,
        Err(_) => current,
    }
}

/// What is reported once a decoding attempt has ended as `decoded`.
pub open spec fn delivery_of(decoded: Result<Seq<u8>, DecodeError>) -> Delivery {
    match decoded {
        Ok(_) => Delivery::Published,
        Err(error) => Delivery::Rejected(error),
    }
}

/// What is reported for a datagram that the state machine answered with
/// `answer`, where `data` is buffered after it.
pub open spec fn report_of(answer: Result<Progress, Error>, data: Seq<u8>) -> Result<
    Delivery,
    Error,
> {
    match answer {
        Err(error) => Err(error),
        Ok(Progress::Ignored) => Ok(Delivery::Ignored),
        Ok(Progress::Stored) => Ok(Delivery::Stored),
        Ok(Progress::Completed) => Ok(delivery_of(checked_frame(jpeg_decoded(data)))),
    }
}

/// The frame that is published after a datagram that the state machine
/// answered with `answer`, where `data` is buffered after it and `current`
/// was published before. Only a completed frame that decodes to the right
/// geometry replaces what was published.
pub open spec fn frame_after(
    current: Seq<u8>,
    answer: Result<Progress, Error>,
    data: Seq<u8>,
) -> Seq<u8> {
    match answer {
        Ok(Progress::Completed) => published_after(current, checked_frame(jpeg_decoded(data))),
        _ => current,
    }
}

/// Publishes a frame that was decoded, and leaves the slot alone where
/// decoding failed.
pub fn deliver(slot: &mut SharedFrameSlot, decoded: Result<DecodedFrame, DecodeError>) -> (delivery:
    Delivery)
    ensures
        final(slot).frame() == published_after(old(slot).frame(), frame_model(decoded)),
        final(slot).identity() == old(slot).identity(),
        delivery == delivery_of(frame_model(decoded)),
{
    match decoded {
        Ok(pixels) => {
            slot.publish(pixels);
            Delivery::Published
        },
        Err(error) => Delivery::Rejected(error),
    }
}

/// Decodes the bytes of a complete frame and publishes the result if it is a
/// frame.
pub fn submit(slot: &mut SharedFrameSlot, bytes: &[u8]) -> (delivery: Delivery)
    ensures
        final(slot).frame() == published_after(
            old(slot).frame(),
            checked_frame(jpeg_decoded(bytes@)),
        ),
        final(slot).identity() == old(slot).identity(),
        delivery == delivery_of(checked_frame(jpeg_decoded(bytes@))),
        !starts_as_jpeg(bytes@) ==> final(slot).frame() == old(slot).frame() && delivery
            == Delivery::Rejected(DecodeError::InvalidEncoding),
{
    deliver(slot, decode_jpeg_frame(bytes))
}

/// The receiving end of the data channel: a state machine and the slot that
/// it publishes to.
pub struct FrameReceiver {
    machine: Reassembler,
    slot: SharedFrameSlot,
}

impl FrameReceiver {
    /// The state of the reassembly.
    pub closed spec fn state(&self) -> FrameReceptionState {
        self.machine.state()
    }

    /// The bytes buffered by the reassembly.
    pub closed spec fn data(&self) -> Seq<u8> {
        self.machine.data()
    }

    /// The frame that is published.
    pub closed spec fn frame(&self) -> Seq<u8> {
        self.slot.frame()
    }

    /// Which cell the receiver publishes in.
    pub closed spec fn slot_identity(&self) -> int {
        self.slot.identity()
    }

    /// The buffer is within its capacity, and what is published is the empty
    /// frame or a whole one.
    pub closed spec fn wf(&self) -> bool {
        self.machine.wf() && empty_or_whole(self.slot.frame())
    }

    /// A receiver that waits for the start of a frame and has published
    /// nothing but the empty frame.
    pub fn new() -> (receiver: FrameReceiver)
        ensures
            receiver.wf(),
            receiver.state() == FrameReceptionState::WaitingForFrameStart,
            receiver.data() == Seq::<u8>::empty(),
            receiver.frame() == Seq::<u8>::empty(),
    {
        FrameReceiver { machine: Reassembler::new(), slot: SharedFrameSlot::new() }
    }

    /// The state of the reassembly.
    pub fn current_state(&self) -> (state: FrameReceptionState)
        ensures
            state == self.state(),
    {
        self.machine.current_state()
    }

    /// The frame that is published.
    pub fn latest_frame(&self) -> (frame: std::sync::Arc<Vec<u8>>)
        requires
            self.wf(),
        ensures
            (*frame)@ == self.frame(),
            empty_or_whole((*frame)@),
    {
        self.slot.read()
    }

    /// The slot that the receiver publishes in.
    pub fn slot(&self) -> (slot: &SharedFrameSlot)
        ensures
            slot.frame() == self.frame(),
            slot.identity() == self.slot_identity(),
    {
        &self.slot
    }

    /// A handle by which another thread reads the published frame. It reads
    /// in the cell that this receiver publishes in.
    pub fn reader(&self) -> (reader: FrameReader)
        ensures
            reader.source() == self.slot_identity(),
    {
        self.slot.reader()
    }

    /// Takes one datagram as it came off the wire. The state machine moves as
    /// it does on its own; a frame that this datagram completes is decoded at
    /// once, and published if it decodes to a frame.
    pub fn receive(&mut self, datagram: &[u8]) -> (report: Result<Delivery, Error>)
        requires
            old(self).wf(),
        ensures
            final(self).wf(),
            final(self).slot_identity() == old(self).slot_identity(),
            empty_or_whole(final(self).frame()),
            final(self).state() == state_after(
                old(self).state(),
                header_of(datagram@),
                datagram_verdict(old(self).state(), old(self).data().len(), datagram@),
            ),
            final(self).data() == data_after(
                old(self).state(),
                old(self).data(),
                payload_of(datagram@),
                datagram_verdict(old(self).state(), old(self).data().len(), datagram@),
            ),
            report == report_of(
                datagram_verdict(old(self).state(), old(self).data().len(), datagram@),
                final(self).data(),
            ),
            final(self).frame() == frame_after(
                old(self).frame(),
                datagram_verdict(old(self).state(), old(self).data().len(), datagram@),
                final(self).data(),
            ),
            !(report matches Ok(Delivery::Published)) ==> final(self).frame() == old(self).frame(),
            report == Ok::<Delivery, Error>(Delivery::Published) ==> starts_as_jpeg(
                final(self).data(),
            ),
    {
        match self.machine.receive(datagram) {
            Err(error) => Err(error),
            Ok(Progress::Ignored) => Ok(Delivery::Ignored),
            Ok(Progress::Stored) => Ok(Delivery::Stored),
            Ok(Progress::Completed) => {
                let delivery = submit(&mut self.slot, self.machine.assembled());
                Ok(delivery)
            },
        }
    }
}

/// A frame that is not published leaves the slot as it was: this holds of
/// bytes that the decoder refuses and of an image of the wrong geometry.
pub proof fn lemma_rejected_frame_keeps_slot(current: Seq<u8>, bytes: Seq<u8>)
    requires
        checked_frame(jpeg_decoded(bytes)) is Err,
    ensures
        published_after(current, checked_frame(jpeg_decoded(bytes))) == current,
        delivery_of(checked_frame(jpeg_decoded(bytes))) is Rejected,
        frame_after(current, Ok(Progress::Completed), bytes) == current,
{
}

/// Bytes that the decoder refuses are never published.
pub proof fn lemma_undecodable_keeps_slot(current: Seq<u8>, bytes: Seq<u8>)
    requires
        jpeg_decoded(bytes) is None,
    ensures
        published_after(current, checked_frame(jpeg_decoded(bytes))) == current,
        delivery_of(checked_frame(jpeg_decoded(bytes))) == Delivery::Rejected(
            DecodeError::InvalidEncoding,
        ),
{
}

/// A datagram that completes no frame leaves the published frame as it was,
/// and nothing is decoded for it.
pub proof fn lemma_incomplete_keeps_frame(
    current: Seq<u8>,
    answer: Result<Progress, Error>,
    data: Seq<u8>,
)
    requires
        answer != Ok::<Progress, Error>(Progress::Completed),
    ensures
        frame_after(current, answer, data) == current,
        !(report_of(answer, data) matches Ok(Delivery::Published)),
        !(report_of(answer, data) matches Ok(Delivery::Rejected(_))),
{
}

/// While a frame is in progress, a fragment with another index than the one
/// awaited, or of another frame, is refused: the partial frame is dropped,
/// the machine waits for the start of a frame, nothing is decoded and the
/// published frame stays.
pub proof fn lemma_resync_keeps_frame(
    state: FrameReceptionState,
    data: Seq<u8>,
    current: Seq<u8>,
    header: UDPFrameHeader,
    payload: Seq<u8>,
)
    requires
        state is AssemblingSubpackets,
        header.sub_packet_number != state->received || header.frame_number != state->frame_number,
    ensures
        ({
            let answer = crate::reassembly::verdict(state, data.len(), header, payload.len());
            let kept = data_after(state, data, payload, answer);
            &&& answer is Err
            &&& state_after(state, header, answer) == FrameReceptionState::WaitingForFrameStart
            &&& kept == Seq::<u8>::empty()
            &&& report_of(answer, kept) is Err
            &&& frame_after(current, answer, kept) == current
        }),
{
}

} // verus!
