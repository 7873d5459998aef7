//! The control channel: what the camera's replies mean, what is sent to it,
//! and when a keepalive is due.

use vstd::prelude::*;
use vstd::slice::slice_to_vec;

verus! {

/// A reply of the camera on the control channel.
#[derive(Debug, Clone)]
pub enum TcpMessage {
    /// The camera acknowledged the initialization sequence.
    Initialization,
    /// The illuminator line (the "yellow wire") went high: the light is on.
    YellowWireHigh,
    /// The illuminator line went low: the light is off.
    YellowWireLow,
    /// The camera acknowledged a keepalive.
    KeepaliveAcknowledgement,
    /// Any other reply, kept byte for byte.
    Other(Vec<u8>),
}

/// What a message is, with the opaque bytes as a sequence.
pub enum MessageKind {
    Initialization,
    YellowWireHigh,
    YellowWireLow,
    KeepaliveAcknowledgement,
    Other(Seq<u8>),
}

impl View for TcpMessage {
    type V = MessageKind;

    open spec fn view(&self) -> MessageKind {
        match self {
            TcpMessage::Initialization => MessageKind::Initialization,
            TcpMessage::YellowWireHigh => MessageKind::YellowWireHigh,
            TcpMessage::YellowWireLow => MessageKind::YellowWireLow,
            TcpMessage::KeepaliveAcknowledgement => MessageKind::KeepaliveAcknowledgement,
            TcpMessage::Other(bytes) => MessageKind::Other(bytes@),
        }
    }
}

/// The reply that acknowledges initialization.
pub open spec fn initialization_reply() -> Seq<u8> {
    seq![0x0Du8, 0x02u8, 0xD0u8, 0xD0u8, 0x0Eu8, 0x01u8, 0xAFu8, 0xE0u8]
}

/// The reply that reports the illuminator on.
pub open spec fn yellow_wire_high_reply() -> Seq<u8> {
    seq![0x0Bu8, 0x01u8, 0xC0u8, 0xB0u8]
}

/// The reply that reports the illuminator off.
pub open spec fn yellow_wire_low_reply() -> Seq<u8> {
    seq![0x0Bu8, 0x00u8, 0xC0u8, 0xB0u8]
}

/// The reply that acknowledges a keepalive. The keepalive that is sent has the
/// same four bytes.
pub open spec fn keepalive_bytes() -> Seq<u8> {
    seq![0x0Eu8, 0x01u8, 0xAFu8, 0xE0u8]
}

/// The twenty bytes that open a session.
pub open spec fn init_bytes() -> Seq<u8> {
    seq![
        0x01u8, 0x01u8, 0x02u8, 0x10u8,
        0x02u8, 0x01u8, 0x03u8, 0x20u8,
        0x02u8, 0x01u8, 0x03u8, 0x20u8,
        0x0Eu8, 0x01u8, 0xAFu8, 0xE0u8,
        0x24u8, 0x01u8, 0xC0u8, 0x42u8,
    ]
}

/// The meaning of a reply: one of the four fixed sequences, matched exactly,
/// or else the bytes themselves.
pub open spec fn classify(bytes: Seq<u8>) -> MessageKind {
    if bytes == initialization_reply() {
        MessageKind::Initialization
    } else if bytes == yellow_wire_high_reply() {
        MessageKind::YellowWireHigh
    } else if bytes == yellow_wire_low_reply() {
        MessageKind::YellowWireLow
    } else if bytes == keepalive_bytes() {
        MessageKind::KeepaliveAcknowledgement
    } else {
        MessageKind::Other(bytes)
    }
}

/// Whether `bytes` is the four bytes given.
fn is_quad(bytes: &[u8], b0: u8, b1: u8, b2: u8, b3: u8) -> (same: bool)
    ensures
        same <==> bytes@ == seq![b0, b1, b2, b3],
{
    if bytes.len() == 4 && bytes[0] == b0 && bytes[1] == b1 && bytes[2] == b2 && bytes[3] == b3 {
        assert(bytes@ =~= seq![b0, b1, b2, b3]);
        true
    } else {
        false
    }
}

/// Whether `bytes` is the reply that acknowledges initialization.
fn is_initialization(bytes: &[u8]) -> (same: bool)
    ensures
        same <==> bytes@ == initialization_reply(),
{
    if bytes.len() == 8 && bytes[0] == 0x0D && bytes[1] == 0x02 && bytes[2] == 0xD0 && bytes[3]
        == 0xD0 && bytes[4] == 0x0E && bytes[5] == 0x01 && bytes[6] == 0xAF && bytes[7] == 0xE0 {
        assert(bytes@ =~= initialization_reply());
        true
    } else {
        false
    }
}

impl TcpMessage {
    /// Classifies a reply read from the control channel.
    pub fn from(bytes: &[u8]) -> (message: TcpMessage)
        ensures
            message@ == classify(bytes@),
    {
        if is_initialization(bytes) {
            TcpMessage::Initialization
        } else if is_quad(bytes, 0x0B, 0x01, 0xC0, 0xB0) {
            TcpMessage::YellowWireHigh
        } else if is_quad(bytes, 0x0B, 0x00, 0xC0, 0xB0) {
            TcpMessage::YellowWireLow
        } else if is_quad(bytes, 0x0E, 0x01, 0xAF, 0xE0) {
            TcpMessage::KeepaliveAcknowledgement
        } else {
            TcpMessage::Other(slice_to_vec(bytes))
        }
    }
}

/// The initialization sequence, sent once when the session starts.
pub fn init_sequence() -> (bytes: Vec<u8>)
    ensures
        bytes@ == init_bytes(),
{
    let bytes: Vec<u8> = vec![
        0x01u8, 0x01u8, 0x02u8, 0x10u8,
        0x02u8, 0x01u8, 0x03u8, 0x20u8,
        0x02u8, 0x01u8, 0x03u8, 0x20u8,
        0x0Eu8, 0x01u8, 0xAFu8, 0xE0u8,
        0x24u8, 0x01u8, 0xC0u8, 0x42u8,
    ];
    assert(bytes@ =~= init_bytes());
    bytes
}

/// The keepalive sequence.
pub fn keepalive_sequence() -> (bytes: Vec<u8>)
    ensures
        bytes@ == keepalive_bytes(),
{
    let bytes: Vec<u8> = vec![0x0Eu8, 0x01u8, 0xAFu8, 0xE0u8];
    assert(bytes@ =~= keepalive_bytes());
    bytes
}

/// Milliseconds that must have passed since the last keepalive before the
/// next one is sent.
pub const KEEPALIVE_INTERVAL_MS: u64 = 1000;

/// Whether a keepalive is due at `now_ms` when the last one went out at
/// `last_ms`: the interval has passed in full. A clock that ran backwards
/// never makes one due.
pub open spec fn keepalive_due_at(last_ms: u64, now_ms: u64) -> bool {
    now_ms as int - last_ms as int >= KEEPALIVE_INTERVAL_MS as int
}

/// What the control loop does after looking at the clock.
#[derive(Clone, Copy, Debug, PartialEq, Eq, Structural)]
pub enum KeepaliveAction {
    /// Write the keepalive sequence to the camera.
    Send,
    /// Write nothing.
    Wait,
}

/// Remembers when the last keepalive went out.
#[derive(Clone, Copy, Debug)]
pub struct KeepaliveTimer {
    /// Clock reading, in milliseconds, at which the last keepalive was sent.
    pub last_sent_ms: u64,
}

impl KeepaliveTimer {
    /// A timer for a session whose initialization sequence went out at
    /// `now_ms`.
    pub fn new(now_ms: u64) -> (timer: KeepaliveTimer)
        ensures
            timer.last_sent_ms == now_ms,
    {
        KeepaliveTimer { last_sent_ms: now_ms }
    }

    /// Looks at the clock. When a keepalive is due the answer is `Send` and
    /// the timer restarts at `now_ms`; otherwise nothing changes.
    pub fn poll(&mut self, now_ms: u64) -> (action: KeepaliveAction)
        ensures
            action == KeepaliveAction::Send <==> keepalive_due_at(old(self).last_sent_ms, now_ms),
            action == KeepaliveAction::Wait <==> !keepalive_due_at(old(self).last_sent_ms, now_ms),
            final(self).last_sent_ms == if keepalive_due_at(old(self).last_sent_ms, now_ms) {
                now_ms
            } else {
                old(self).last_sent_ms
            },
    {
        if now_ms >= self.last_sent_ms && now_ms - self.last_sent_ms >= KEEPALIVE_INTERVAL_MS {
            self.last_sent_ms = now_ms;
            KeepaliveAction::Send
        } else {
            KeepaliveAction::Wait
        }
    }
}

/// How one read on the control channel ended.
#[derive(Clone, Copy, Debug, PartialEq, Eq, Structural)]
pub enum ReadOutcome {
    /// Bytes were read.
    Data,
    /// Nothing came within the read timeout.
    TimedOut,
    /// The read failed, but the connection stands.
    Failed,
    /// The connection is gone.
    Disconnected,
}

/// How a read that reported no error ended, by the number of bytes it read:
/// a read of nothing means that the camera has closed the connection.
pub fn outcome_of_read(count: usize) -> (outcome: ReadOutcome)
    ensures
        outcome == if count == 0 {
            ReadOutcome::Disconnected
        } else {
            ReadOutcome::Data
        },
{
    if count == 0 {
        ReadOutcome::Disconnected
    } else {
        ReadOutcome::Data
    }
}

/// What the control loop does after a read.
#[derive(Debug, Clone)]
pub enum ControlAction {
    /// Hand the message on to whoever listens.
    Forward(TcpMessage),
    /// Go on without a word: there was nothing to read this time.
    Continue,
    /// Write a diagnostic and go on.
    Report,
    /// Give the loop up.
    Stop,
}

/// What a control action is, with a message by its view.
pub enum ControlActionKind {
    Forward(MessageKind),
    Continue,
    Report,
    Stop,
}

impl View for ControlAction {
    type V = ControlActionKind;

    open spec fn view(&self) -> ControlActionKind {
        match self {
            ControlAction::Forward(message) => ControlActionKind::Forward(message@),
            ControlAction::Continue => ControlActionKind::Continue,
            ControlAction::Report => ControlActionKind::Report,
            ControlAction::Stop => ControlActionKind::Stop,
        }
    }
}

/// The action that follows a read which ended as `outcome` and, where it read
/// anything, read `received`.
pub open spec fn reaction(outcome: ReadOutcome, received: Seq<u8>) -> ControlActionKind {
    match outcome {
        ReadOutcome::Data => ControlActionKind::Forward(classify(received)),
        ReadOutcome::TimedOut => ControlActionKind::Continue,
        ReadOutcome::Failed => ControlActionKind::Report,
        ReadOutcome::Disconnected => ControlActionKind::Stop,
    }
}

/// Decides what the control loop does after a read. `received` is what the
/// read put into the buffer, and counts only where the outcome is `Data`.
pub fn react(outcome: ReadOutcome, received: &[u8]) -> (action: ControlAction)
    ensures
        action@ == reaction(outcome, received@),
{
    match outcome {
        ReadOutcome::Data => ControlAction::Forward(TcpMessage::from(received)),
        ReadOutcome::TimedOut => ControlAction::Continue,
        ReadOutcome::Failed => ControlAction::Report,
        ReadOutcome::Disconnected => ControlAction::Stop,
    }
}

/// Each of the four fixed replies means what it is named for, and every other
/// reply, the empty one too, is kept as it is.
pub proof fn lemma_classification(bytes: Seq<u8>)
    ensures
        classify(initialization_reply()) == MessageKind::Initialization,
        classify(yellow_wire_high_reply()) == MessageKind::YellowWireHigh,
        classify(yellow_wire_low_reply()) == MessageKind::YellowWireLow,
        classify(keepalive_bytes()) == MessageKind::KeepaliveAcknowledgement,
        classify(Seq::<u8>::empty()) == MessageKind::Other(Seq::<u8>::empty()),
        bytes != initialization_reply() && bytes != yellow_wire_high_reply() && bytes
            != yellow_wire_low_reply() && bytes != keepalive_bytes() ==> classify(bytes)
            == MessageKind::Other(bytes),
{
    assert(initialization_reply().len() == 8);
    assert(yellow_wire_high_reply().len() == 4);
    assert(yellow_wire_low_reply().len() == 4);
    assert(keepalive_bytes().len() == 4);
    assert(yellow_wire_high_reply()[1] == 0x01u8);
    assert(yellow_wire_low_reply()[1] == 0x00u8);
    assert(yellow_wire_high_reply()[0] == 0x0Bu8);
    assert(yellow_wire_low_reply()[0] == 0x0Bu8);
    assert(keepalive_bytes()[0] == 0x0Eu8);
    assert(Seq::<u8>::empty().len() == 0);
}

/// A keepalive is due exactly from the moment at which a full interval has
/// passed since the last one: not a millisecond before, and at every moment
/// after until one is sent.
pub proof fn lemma_keepalive_cadence(last_ms: u64, now_ms: u64)
    ensures
        now_ms < last_ms + KEEPALIVE_INTERVAL_MS ==> !keepalive_due_at(last_ms, now_ms),
        now_ms >= last_ms + KEEPALIVE_INTERVAL_MS ==> keepalive_due_at(last_ms, now_ms),
{
}

} // verus!
