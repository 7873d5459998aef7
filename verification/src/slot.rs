//! The slot in which the latest frame is published.
//!
//! One publisher owns the slot and replaces its frame; any number of readers
//! hold a handle and look at the frame whenever they like. A reader gets a
//! whole frame, the one before or the one after a replacement, and keeps it
//! alive for as long as it holds it.

use vstd::prelude::*;
use std::sync::Arc;
use arc_swap::ArcSwap;
use crate::decode::{empty_or_whole, DecodedFrame, FRAME_BYTES};

verus! {

/// The shared cell itself: an `arc_swap::ArcSwap` over the frame bytes,
/// behind an `Arc` so that readers on other threads can hold it too.
#[verifier::external_body]
pub struct FrameCell {
    cell: Arc<ArcSwap<Vec<u8>>>,
}

/// The frame that a cell holds, as its publisher knows it.
pub uninterp spec fn cell_frame(cell: FrameCell) -> Seq<u8>;

/// Which cell a handle leads to. Handles that lead to the same cell see the
/// same frames: what is stored through one is what a load through another
/// finds.
pub uninterp spec fn cell_identity(cell: FrameCell) -> int;

/// `ArcSwap::from_pointee` on an empty vector: a new cell that holds the
/// empty frame.
#[verifier::external_body]
fn cell_new() -> (cell: FrameCell)
    ensures
        cell_frame(cell) == Seq::<u8>::empty(),
{
    FrameCell { cell: Arc::new(ArcSwap::from_pointee(Vec::new())) }
}

/// `ArcSwapAny::store`: replaces the value in the cell, so that what the cell
/// holds afterwards is `frame`; the handle leads to the same cell as before.
/// The exclusive borrow is the publisher's: no one else stores into the cell.
/// Only whole frames are stored, so that a cell never holds anything but the
/// empty frame that it was made with or a whole frame.
#[verifier::external_body]
fn cell_store(cell: &mut FrameCell, frame: Vec<u8>)
    requires
        frame@.len() == FRAME_BYTES,
    ensures
        cell_frame(*final(cell)) == frame@,
        cell_identity(*final(cell)) == cell_identity(*old(cell)),
{
    cell.cell.store(Arc::new(frame));
}

/// `ArcSwapAny::load_full` on the publisher's side: a handle to the value that
/// the cell holds.
#[verifier::external_body]
fn cell_load_full(cell: &FrameCell) -> (frame: Arc<Vec<u8>>)
    ensures
        (*frame)@ == cell_frame(*cell),
{
    cell.cell.load_full()
}

/// `Arc::clone` of the cell: a second handle, which leads to the same cell.
#[verifier::external_body]
fn cell_share(cell: &FrameCell) -> (shared: FrameCell)
    ensures
        cell_identity(shared) == cell_identity(*cell),
{
    FrameCell { cell: Arc::clone(&cell.cell) }
}

/// `ArcSwapAny::load` on a reader's side, with the guard turned into a handle
/// to the frame. A load finds a value that the cell was made with or that was
/// stored into it, whole: so the frame is the empty one or a whole one. Which
/// of them it is depends on what the publisher has done by then, and nothing
/// is claimed of that.
#[verifier::external_body]
fn cell_load(cell: &FrameCell) -> (frame: Arc<Vec<u8>>)
    ensures
        empty_or_whole((*frame)@),
{
    Arc::clone(&cell.cell.load())
}

/// `ArcSwapAny::load` through a reader's handle while the publisher's handle
/// to the same cell is borrowed: nothing can be stored for as long as that
/// borrow lasts, so the load finds the frame that the publisher's handle
/// holds.
#[verifier::external_body]
fn cell_load_current(cell: &FrameCell, owner: &FrameCell) -> (frame: Arc<Vec<u8>>)
    requires
        cell_identity(*cell) == cell_identity(*owner),
    ensures
        (*frame)@ == cell_frame(*owner),
{
    Arc::clone(&cell.cell.load())
}

/// The frame that a slot shows after the frames of `published` were published
/// one by one, where it showed `initial` before.
pub open spec fn latest(initial: Seq<u8>, published: Seq<Seq<u8>>) -> Seq<u8> {
    if published.len() == 0 {
        initial
    } else {
        published.last()
    }
}

/// The publisher's end of the slot.
pub struct SharedFrameSlot {
    cell: FrameCell,
}

/// A reader's end of the slot.
pub struct FrameReader {
    cell: FrameCell,
}

impl SharedFrameSlot {
    /// The frame that is published: the argument of the latest `publish`, or
    /// the empty frame where there was none.
    pub closed spec fn frame(&self) -> Seq<u8> {
        cell_frame(self.cell)
    }

    /// Which cell the slot publishes in.
    pub closed spec fn identity(&self) -> int {
        cell_identity(self.cell)
    }

    /// A slot that holds the empty frame, which stands for "no frame yet".
    pub fn new() -> (slot: SharedFrameSlot)
        ensures
            slot.frame() == Seq::<u8>::empty(),
    {
        SharedFrameSlot { cell: cell_new() }
    }

    /// Replaces the published frame by `frame`.
    pub fn publish(&mut self, frame: DecodedFrame)
        ensures
            final(self).frame() == frame@,
            final(self).frame() == latest(old(self).frame(), seq![frame@]),
            final(self).identity() == old(self).identity(),
    {
        cell_store(&mut self.cell, frame.into_pixels());
    }

    /// The published frame.
    pub fn read(&self) -> (frame: Arc<Vec<u8>>)
        ensures
            (*frame)@ == self.frame(),
    {
        cell_load_full(&self.cell)
    }

    /// A handle for a reader, which may live on another thread. It reads in
    /// the cell that this slot publishes in.
    pub fn reader(&self) -> (reader: FrameReader)
        ensures
            reader.source() == self.identity(),
    {
        FrameReader { cell: cell_share(&self.cell) }
    }
}

/// The frame, if it has the pixel bytes of one whole frame, and nothing if it
/// is the empty frame of a slot that nothing was published to yet, or has any
/// other length.
pub fn whole_frame(frame: Arc<Vec<u8>>) -> (whole: Option<Arc<Vec<u8>>>)
    ensures
        whole == if (*frame)@.len() == FRAME_BYTES {
            Some(frame)
        } else {
            None
        },
{
    if frame.len() == FRAME_BYTES {
        Some(frame)
    } else {
        None
    }
}

impl FrameReader {
    /// Which cell the reader reads in: that of the slot it was made by.
    pub closed spec fn source(&self) -> int {
        cell_identity(self.cell)
    }

    /// The frame that is published at the moment of the call: the empty frame
    /// while nothing was published, and a whole frame from then on.
    pub fn read(&self) -> (frame: Arc<Vec<u8>>)
        ensures
            empty_or_whole((*frame)@),
    {
        cell_load(&self.cell)
    }

    /// The frame that is published in `slot`, read through this reader. While
    /// the slot is borrowed nothing can be published, so this is exactly the
    /// slot's frame: a reader sees every frame that its slot publishes.
    pub fn read_current(&self, slot: &SharedFrameSlot) -> (frame: Arc<Vec<u8>>)
        requires
            self.source() == slot.identity(),
        ensures
            (*frame)@ == slot.frame(),
    {
        cell_load_current(&self.cell, &slot.cell)
    }

    /// The frame that is published at the moment of the call, if it is a
    /// whole frame.
    pub fn read_whole(&self) -> (frame: Option<Arc<Vec<u8>>>)
        ensures
            frame matches Some(pixels) ==> (*pixels)@.len() == FRAME_BYTES,
    {
        whole_frame(self.read())
    }
}

/// Publishing one more frame shows that frame, whatever was published before.
pub proof fn lemma_latest_wins(initial: Seq<u8>, published: Seq<Seq<u8>>, frame: Seq<u8>)
    ensures
        latest(initial, published.push(frame)) == frame,
        latest(initial, published.push(frame)) == latest(latest(initial, published), seq![frame]),
{
}

/// What a slot shows is what it showed at first or a frame that was
/// published whole: never anything else.
pub proof fn lemma_only_published_frames(initial: Seq<u8>, published: Seq<Seq<u8>>)
    ensures
        latest(initial, published) == initial || exists|i: int|
            0 <= i < published.len() && latest(initial, published) == #[trigger] published[i],
{
    if published.len() > 0 {
        assert(latest(initial, published) == published[published.len() - 1]);
    }
}

} // verus!
