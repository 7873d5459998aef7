//! The reassembly state machine: fragments in, complete frames out.
//!
//! Fragments of one frame must arrive in order and without gaps. Anything
//! else abandons the frame, and the machine waits for the next fragment that
//! starts one.

use vstd::prelude::*;
use vstd::slice::slice_subrange;
use crate::header::{header_of, payload_of, UDPFrameHeader, HEADER_LEN};

verus! {

/// The most bytes that one assembled frame may have.
pub const FRAME_BUFFER_CAPACITY: usize = 131072;

/// Where the machine stands between two datagrams.
#[derive(Clone, Copy, Debug, PartialEq, Eq, Structural)]
pub enum FrameReceptionState {
    /// No frame is in progress.
    WaitingForFrameStart,
    /// A frame is partly buffered.
    AssemblingSubpackets {
        /// Fragments buffered so far, which is also the index of the fragment
        /// that must come next.
        received: u8,
        /// Fragments that the frame has, as its first fragment declared.
        required: u8,
        /// The frame that the buffered fragments belong to.
        frame_number: u8,
        /// Packet number of the fragment buffered last.
        last_packet_number: u16,
    },
}

/// Why a datagram was not added to the frame in progress.
#[derive(Clone, Copy, Debug, PartialEq, Eq, Structural)]
pub enum Error {
    /// The datagram is too short to hold a header.
    ShortDatagram,
    /// The packet number does not follow that of the previous fragment.
    PacketOutOfOrder,
    /// The fragment belongs to another frame than the one in progress.
    ForeignFrame,
    /// The fragment's index is not the one that must come next.
    SubpacketOutOfOrder,
    /// The fragment does not fit into what is left of the frame buffer.
    BufferOverflow,
}

/// What became of a fragment that was not refused.
#[derive(Clone, Copy, Debug, PartialEq, Eq, Structural)]
pub enum Progress {
    /// No frame was in progress and the fragment does not start one.
    Ignored,
    /// The payload was buffered and more fragments are awaited.
    Stored,
    /// The payload was buffered and the frame is complete.
    Completed,
}

/// The packet number that follows `n`, wrapping at the top.
pub open spec fn next_packet_number(n: u16) -> u16 {
    if n == u16::MAX {
        0u16
    } else {
        (n + 1) as u16
    }
}

/// The fragment index that follows `n`, wrapping at the top.
pub open spec fn next_fragment(n: u8) -> u8 {
    if n == u8::MAX {
        0u8
    } else {
        (n + 1) as u8
    }
}

/// What the machine answers to a fragment, given its state and the number of
/// bytes buffered. The four checks of a frame in progress are made in the
/// order in which they stand here.
pub open spec fn verdict(
    state: FrameReceptionState,
    buffered: nat,
    header: UDPFrameHeader,
    payload_len: nat,
) -> Result<Progress, Error> {
    match state {
        FrameReceptionState::WaitingForFrameStart => {
            if header.sub_packet_number != 0 {
                Ok(Progress::Ignored)
            } else if payload_len > FRAME_BUFFER_CAPACITY {
                Err(Error::BufferOverflow)
            } else if header.total_sub_packets == 1 {
                Ok(Progress::Completed)
            } else {
                Ok(Progress::Stored)
            }
        },
        FrameReceptionState::AssemblingSubpackets {
            received,
            required,
            frame_number,
            last_packet_number,
        } => {
            if header.packet_number != next_packet_number(last_packet_number) {
                Err(Error::PacketOutOfOrder)
            } else if header.frame_number != frame_number {
                Err(Error::ForeignFrame)
            } else if header.sub_packet_number != received {
                Err(Error::SubpacketOutOfOrder)
            } else if buffered + payload_len > FRAME_BUFFER_CAPACITY {
                Err(Error::BufferOverflow)
            } else if received + 1 == required {
                Ok(Progress::Completed)
            } else {
                Ok(Progress::Stored)
            }
        },
    }
}

/// The state after a fragment that got the answer `answer`.
pub open spec fn state_after(
    state: FrameReceptionState,
    header: UDPFrameHeader,
    answer: Result<Progress, Error>,
) -> FrameReceptionState {
    match answer {
        Ok(Progress::Stored) => match state {
            FrameReceptionState::WaitingForFrameStart => FrameReceptionState::AssemblingSubpackets {
                received: 1,
                required: header.total_sub_packets,
                frame_number: header.frame_number,
                last_packet_number: header.packet_number,
            },
            FrameReceptionState::AssemblingSubpackets {
                received,
                required,
                frame_number,
                last_packet_number,
            } => FrameReceptionState::AssemblingSubpackets {
                received: next_fragment(received),
                required,
                frame_number,
                last_packet_number: header.packet_number,
            },
        },
        Ok(Progress::Ignored) => state,
        Ok(Progress::Completed) => FrameReceptionState::WaitingForFrameStart,
        Err(Error::ShortDatagram) => state,
        Err(_) => FrameReceptionState::WaitingForFrameStart,
    }
}

/// The buffered bytes after a fragment that got the answer `answer`.
pub open spec fn data_after(
    state: FrameReceptionState,
    data: Seq<u8>,
    payload: Seq<u8>,
    answer: Result<Progress, Error>,
) -> Seq<u8> {
    match answer {
        Ok(Progress::Stored) | Ok(Progress::Completed) => match state {
            FrameReceptionState::WaitingForFrameStart => payload,
            FrameReceptionState::AssemblingSubpackets { .. } => data + payload,
        },
        Ok(Progress::Ignored) => data,
        Err(Error::ShortDatagram) => data,
        Err(_) => Seq::empty(),
    }
}

/// What the machine answers to a whole datagram.
pub open spec fn datagram_verdict(
    state: FrameReceptionState,
    buffered: nat,
    datagram: Seq<u8>,
) -> Result<Progress, Error> {
    if datagram.len() < HEADER_LEN {
        Err(Error::ShortDatagram)
    } else {
        verdict(state, buffered, header_of(datagram), payload_of(datagram).len())
    }
}

/// The state machine together with the buffer that the frame is assembled in.
pub struct Reassembler {
    state: FrameReceptionState,
    buffer: Vec<u8>,
}

impl Reassembler {
    /// The state of the machine.
    pub closed spec fn state(&self) -> FrameReceptionState {
        self.state
    }

    /// The bytes buffered: the fragments of the frame in progress, or, right
    /// after a frame was completed, that frame.
    pub closed spec fn data(&self) -> Seq<u8> {
        self.buffer@
    }

    /// The machine as a value.
    pub open spec fn assembly(&self) -> Assembly {
        Assembly { state: self.state(), data: self.data() }
    }

    /// The buffer never holds more than its capacity.
    pub closed spec fn wf(&self) -> bool {
        self.buffer@.len() <= FRAME_BUFFER_CAPACITY
    }

    /// A machine that waits for the start of a frame, with nothing buffered.
    pub fn new() -> (machine: Reassembler)
        ensures
            machine.wf(),
            machine.state() == FrameReceptionState::WaitingForFrameStart,
            machine.data() == Seq::<u8>::empty(),
    {
        Reassembler { state: FrameReceptionState::WaitingForFrameStart, buffer: Vec::new() }
    }

    /// The state of the machine.
    pub fn current_state(&self) -> (state: FrameReceptionState)
        ensures
            state == self.state(),
    {
        self.state
    }

    /// The bytes buffered. After an answer of `Completed` these are the bytes
    /// of the complete frame.
    pub fn assembled(&self) -> (bytes: &[u8])
        ensures
            bytes@ == self.data(),
    {
        self.buffer.as_slice()
    }

    /// Takes one fragment, already split into header and payload.
    pub fn accept(&mut self, header: &UDPFrameHeader, payload: &[u8]) -> (answer: Result<
        Progress,
        Error,
    >)
        requires
            old(self).wf(),
        ensures
            final(self).wf(),
            answer == verdict(old(self).state(), old(self).data().len(), *header, payload@.len()),
            final(self).state() == state_after(old(self).state(), *header, answer),
            final(self).data() == data_after(old(self).state(), old(self).data(), payload@, answer),
            final(self).assembly() == step(old(self).assembly(), *header, payload@),
    {
        let answer: Result<Progress, Error> = match self.state {
            FrameReceptionState::WaitingForFrameStart => {
                if header.sub_packet_number != 0 {
                    Ok(Progress::Ignored)
                } else {
                    self.buffer.clear();
                    if payload.len() > FRAME_BUFFER_CAPACITY {
                        Err(Error::BufferOverflow)
                    } else {
                        self.buffer.extend_from_slice(payload);
                        assert(self.buffer@ =~= payload@);
                        if header.total_sub_packets == 1 {
                            Ok(Progress::Completed)
                        } else {
                            self.state = FrameReceptionState::AssemblingSubpackets {
                                received: 1,
                                required: header.total_sub_packets,
                                frame_number: header.frame_number,
                                last_packet_number: header.packet_number,
                            };
                            Ok(Progress::Stored)
                        }
                    }
                }
            },
            FrameReceptionState::AssemblingSubpackets {
                received,
                required,
                frame_number,
                last_packet_number,
            } => {
                let expected_packet: u16 = if last_packet_number == u16::MAX {
                    0
                } else {
                    last_packet_number + 1
                };
                let refusal: Option<Error> = if header.packet_number != expected_packet {
                    Some(Error::PacketOutOfOrder)
                } else if header.frame_number != frame_number {
                    Some(Error::ForeignFrame)
                } else if header.sub_packet_number != received {
                    Some(Error::SubpacketOutOfOrder)
                } else if payload.len() > FRAME_BUFFER_CAPACITY - self.buffer.len() {
                    Some(Error::BufferOverflow)
                } else {
                    None
                };
                match refusal {
                    Some(error) => {
                        self.buffer.clear();
                        self.state = FrameReceptionState::WaitingForFrameStart;
                        Err(error)
                    },
                    None => {
                        self.buffer.extend_from_slice(payload);
                        if received < u8::MAX && received + 1 == required {
                            self.state = FrameReceptionState::WaitingForFrameStart;
                            Ok(Progress::Completed)
                        } else {
                            self.state = FrameReceptionState::AssemblingSubpackets {
                                received: if received == u8::MAX {
                                    0
                                } else {
                                    received + 1
                                },
                                required,
                                frame_number,
                                last_packet_number: header.packet_number,
                            };
                            Ok(Progress::Stored)
                        }
                    },
                }
            },
        };
        proof {
            let before = old(self).assembly();
            assert(answer == verdict(before.state, before.data.len(), *header, payload@.len()));
            assert(self.state() == state_after(before.state, *header, answer));
            assert(self.data() == data_after(before.state, before.data, payload@, answer));
        }
        answer
    }

    /// Takes one datagram as it came off the wire. One that is too short for
    /// a header is refused and changes nothing.
    pub fn receive(&mut self, datagram: &[u8]) -> (answer: Result<Progress, Error>)
        requires
            old(self).wf(),
        ensures
            final(self).wf(),
            answer == datagram_verdict(old(self).state(), old(self).data().len(), datagram@),
            final(self).state() == state_after(old(self).state(), header_of(datagram@), answer),
            final(self).data() == data_after(
                old(self).state(),
                old(self).data(),
                payload_of(datagram@),
                answer,
            ),
    {
        if datagram.len() < HEADER_LEN {
            return Err(Error::ShortDatagram);
        }
        let header = UDPFrameHeader::from(datagram);
        let payload = slice_subrange(datagram, HEADER_LEN, datagram.len());
        self.accept(&header, payload)
    }
}

/// The machine as a value: its state and the bytes buffered.
pub struct Assembly {
    pub state: FrameReceptionState,
    pub data: Seq<u8>,
}

/// The machine after one fragment.
pub open spec fn step(before: Assembly, header: UDPFrameHeader, payload: Seq<u8>) -> Assembly {
    let answer = verdict(before.state, before.data.len(), header, payload.len());
    Assembly {
        state: state_after(before.state, header, answer),
        data: data_after(before.state, before.data, payload, answer),
    }
}

/// The machine after a run of fragments, taken in the order of arrival.
pub open spec fn run(start: Assembly, fragments: Seq<(UDPFrameHeader, Seq<u8>)>) -> Assembly
    decreases fragments.len(),
{
    if fragments.len() == 0 {
        start
    } else {
        step(run(start, fragments.drop_last()), fragments.last().0, fragments.last().1)
    }
}

/// The answer to the fragment at position `k` of a run.
pub open spec fn answer_at(
    start: Assembly,
    fragments: Seq<(UDPFrameHeader, Seq<u8>)>,
    k: int,
) -> Result<Progress, Error>
    recommends
        0 <= k < fragments.len(),
{
    let before = run(start, fragments.take(k));
    verdict(before.state, before.data.len(), fragments[k].0, fragments[k].1.len())
}

/// The payloads of a run of fragments, one after the other.
pub open spec fn joined(fragments: Seq<(UDPFrameHeader, Seq<u8>)>) -> Seq<u8>
    decreases fragments.len(),
{
    if fragments.len() == 0 {
        Seq::empty()
    } else {
        joined(fragments.drop_last()) + fragments.last().1
    }
}

/// The packet number `k` steps after `first`, wrapping at the top.
pub open spec fn packet_number_at(first: u16, k: int) -> u16 {
    ((first as int + k) % 65536) as u16
}

/// The fragments are those of one whole frame in order: they carry the
/// indices from zero up, the same frame number, their own count as the total,
/// and consecutive packet numbers from `first_packet` on; and their payloads
/// fit into the buffer together.
pub open spec fn whole_frame_in_order(
    fragments: Seq<(UDPFrameHeader, Seq<u8>)>,
    frame_number: u8,
    first_packet: u16,
) -> bool {
    &&& 1 <= fragments.len() <= u8::MAX
    &&& joined(fragments).len() <= FRAME_BUFFER_CAPACITY
    &&& forall|i: int|
        0 <= i < fragments.len() ==> {
            &&& (#[trigger] fragments[i]).0.sub_packet_number == i
            &&& fragments[i].0.frame_number == frame_number
            &&& fragments[i].0.total_sub_packets == fragments.len()
            &&& fragments[i].0.packet_number == packet_number_at(first_packet, i)
        }
}

/// The first `k` payloads are a prefix of all of them joined.
pub proof fn lemma_joined_prefix(fragments: Seq<(UDPFrameHeader, Seq<u8>)>, k: int)
    requires
        0 <= k <= fragments.len(),
    ensures
        joined(fragments.take(k)).len() <= joined(fragments).len(),
        joined(fragments.take(k)) == joined(fragments).subrange(
            0,
            joined(fragments.take(k)).len() as int,
        ),
    decreases fragments.len() - k,
{
    if k == fragments.len() {
        assert(fragments.take(k) =~= fragments);
        assert(joined(fragments) =~= joined(fragments).subrange(0, joined(fragments).len() as int));
    } else {
        lemma_joined_prefix(fragments, k + 1);
        let longer = fragments.take(k + 1);
        assert(longer.drop_last() =~= fragments.take(k));
        let short = joined(fragments.take(k));
        assert(joined(longer) == short + longer.last().1);
        assert(short =~= joined(fragments).subrange(0, short.len() as int));
    }
}

/// While the fragments of a whole frame arrive in order, each is buffered
/// behind the ones before it and the machine awaits the next.
pub proof fn lemma_in_order_prefix(
    start: Assembly,
    fragments: Seq<(UDPFrameHeader, Seq<u8>)>,
    frame_number: u8,
    first_packet: u16,
    k: int,
)
    requires
        start.state == FrameReceptionState::WaitingForFrameStart,
        whole_frame_in_order(fragments, frame_number, first_packet),
        1 <= k < fragments.len(),
    ensures
        run(start, fragments.take(k)) == (Assembly {
            state: FrameReceptionState::AssemblingSubpackets {
                received: k as u8,
                required: fragments.len() as u8,
                frame_number,
                last_packet_number: packet_number_at(first_packet, k - 1),
            },
            data: joined(fragments.take(k)),
        }),
        answer_at(start, fragments, k - 1) == Ok::<Progress, Error>(Progress::Stored),
    decreases k,
{
    let taken = fragments.take(k);
    let last = fragments[k - 1];
    assert(taken.last() == last);
    assert(taken.drop_last() =~= fragments.take(k - 1));
    lemma_joined_prefix(fragments, k);
    lemma_joined_prefix(fragments, k - 1);
    if k == 1 {
        assert(fragments.take(0) =~= Seq::<(UDPFrameHeader, Seq<u8>)>::empty());
        assert(run(start, fragments.take(0)) == start);
        assert(joined(fragments.take(0)) =~= Seq::<u8>::empty());
        assert(joined(taken) =~= last.1);
    } else {
        lemma_in_order_prefix(start, fragments, frame_number, first_packet, k - 1);
        assert(packet_number_at(first_packet, k - 1) == next_packet_number(
            packet_number_at(first_packet, k - 2),
        ));
    }
}

/// A frame whose fragments all arrive in order is assembled as its payloads
/// joined in the order of arrival. Every fragment but the last is answered
/// with `Stored`, the last with `Completed`: the frame is handed on exactly
/// once, after the last fragment, and the machine waits for the next frame.
pub proof fn lemma_in_order_assembly(
    start: Assembly,
    fragments: Seq<(UDPFrameHeader, Seq<u8>)>,
    frame_number: u8,
    first_packet: u16,
)
    requires
        start.state == FrameReceptionState::WaitingForFrameStart,
        whole_frame_in_order(fragments, frame_number, first_packet),
    ensures
        run(start, fragments).data == joined(fragments),
        run(start, fragments).state == FrameReceptionState::WaitingForFrameStart,
        forall|k: int|
            0 <= k < fragments.len() - 1 ==> #[trigger] answer_at(start, fragments, k) == Ok::<
                Progress,
                Error,
            >(Progress::Stored),
        answer_at(start, fragments, fragments.len() - 1) == Ok::<Progress, Error>(
            Progress::Completed,
        ),
{
    let n = fragments.len() as int;
    assert forall|k: int| 0 <= k < n - 1 implies #[trigger] answer_at(start, fragments, k) == Ok::<
        Progress,
        Error,
    >(Progress::Stored) by {
        lemma_in_order_prefix(start, fragments, frame_number, first_packet, k + 1);
    }
    assert(fragments.take(n) =~= fragments);
    let last = fragments[n - 1];
    assert(fragments.last() == last);
    assert(fragments.drop_last() =~= fragments.take(n - 1));
    if n == 1 {
        assert(fragments.take(0) =~= Seq::<(UDPFrameHeader, Seq<u8>)>::empty());
        assert(run(start, fragments.take(0)) == start);
        assert(joined(fragments.take(0)) =~= Seq::<u8>::empty());
        assert(joined(fragments) =~= last.1);
    } else {
        lemma_in_order_prefix(start, fragments, frame_number, first_packet, n - 1);
        assert(packet_number_at(first_packet, n - 1) == next_packet_number(
            packet_number_at(first_packet, n - 2),
        ));
    }
}

/// A frame of a single fragment is complete at once, and its bytes are the
/// payload of that fragment.
pub proof fn lemma_single_fragment_frame(
    data: Seq<u8>,
    header: UDPFrameHeader,
    payload: Seq<u8>,
)
    requires
        header.sub_packet_number == 0,
        header.total_sub_packets == 1,
        payload.len() <= FRAME_BUFFER_CAPACITY,
    ensures
        step(
            Assembly { state: FrameReceptionState::WaitingForFrameStart, data },
            header,
            payload,
        ) == (Assembly { state: FrameReceptionState::WaitingForFrameStart, data: payload }),
        verdict(FrameReceptionState::WaitingForFrameStart, data.len(), header, payload.len())
            == Ok::<Progress, Error>(Progress::Completed),
{
}

/// While a frame is in progress, a fragment whose index is not the one
/// awaited is refused: the machine forgets what it had buffered and waits for
/// the start of a frame.
pub proof fn lemma_unexpected_index_resets(
    before: Assembly,
    header: UDPFrameHeader,
    payload: Seq<u8>,
)
    requires
        before.state is AssemblingSubpackets,
        header.sub_packet_number != before.state->received,
    ensures
        verdict(before.state, before.data.len(), header, payload.len()) is Err,
        step(before, header, payload) == (Assembly {
            state: FrameReceptionState::WaitingForFrameStart,
            data: Seq::empty(),
        }),
{
}

/// While a frame is in progress, a fragment of another frame is refused: the
/// machine forgets what it had buffered and waits for the start of a frame.
pub proof fn lemma_foreign_frame_resets(
    before: Assembly,
    header: UDPFrameHeader,
    payload: Seq<u8>,
)
    requires
        before.state is AssemblingSubpackets,
        header.frame_number != before.state->frame_number,
    ensures
        verdict(before.state, before.data.len(), header, payload.len()) is Err,
        step(before, header, payload) == (Assembly {
            state: FrameReceptionState::WaitingForFrameStart,
            data: Seq::empty(),
        }),
{
}

/// Whatever arrives, the buffer stays within its capacity.
pub proof fn lemma_step_within_capacity(
    before: Assembly,
    header: UDPFrameHeader,
    payload: Seq<u8>,
)
    requires
        before.data.len() <= FRAME_BUFFER_CAPACITY,
    ensures
        step(before, header, payload).data.len() <= FRAME_BUFFER_CAPACITY,
{
}

} // verus!
