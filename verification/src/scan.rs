//! Splitting a byte stream that has no framing of its own.
//!
//! Where the transport gives no datagram boundaries, frames are found by
//! their first bytes: a frame starts at a start marker and ends where the
//! next marker starts. What the splitter hands out depends on the bytes of
//! the stream alone, not on how the reads happened to cut it up. It always
//! leaves room for the beginning of the next frame.

use vstd::prelude::*;
use vstd::slice::{slice_subrange, slice_to_vec};
use ringbuf::Consumer;
use std::io::Read;

verus! {

/// Bytes that the splitter can hold.
pub const STREAM_BUFFER_LEN: usize = 262144;

/// Room that must be left when more of a frame is awaited, so that the
/// beginning of the frame after it fits as well.
pub const STREAM_RESERVE: usize = 32768;

/// Whether the three bytes at `i` are the start marker `FF D8 FF`.
pub open spec fn marker_at(buffer: Seq<u8>, i: int) -> bool {
    &&& 0 <= i
    &&& i + 3 <= buffer.len()
    &&& buffer[i] == 0xFFu8
    &&& buffer[i + 1] == 0xD8u8
    &&& buffer[i + 2] == 0xFFu8
}

/// The first position from `start` on at which a start marker stands.
pub open spec fn first_marker(buffer: Seq<u8>, start: int) -> Option<int>
    decreases buffer.len() - start,
{
    if start < 0 || start + 3 > buffer.len() {
        None
    } else if marker_at(buffer, start) {
        Some(start)
    } else {
        first_marker(buffer, start + 1)
    }
}

/// What `first_marker` finds is a marker at or behind `start` with none
/// between `start` and it; where it finds nothing there is none to find.
pub proof fn lemma_first_marker(buffer: Seq<u8>, start: int)
    requires
        0 <= start,
    ensures
        match first_marker(buffer, start) {
            Some(i) => {
                &&& start <= i
                &&& marker_at(buffer, i)
                &&& forall|j: int| start <= j < i ==> !marker_at(buffer, j)
            },
            None => forall|j: int| start <= j ==> !marker_at(buffer, j),
        },
    decreases buffer.len() - start,
{
    if start + 3 <= buffer.len() && !marker_at(buffer, start) {
        lemma_first_marker(buffer, start + 1);
    }
}

/// A marker with none between `start` and it is what `first_marker` finds.
pub proof fn lemma_first_marker_is(buffer: Seq<u8>, start: int, i: int)
    requires
        0 <= start <= i,
        marker_at(buffer, i),
        forall|j: int| start <= j < i ==> !marker_at(buffer, j),
    ensures
        first_marker(buffer, start) == Some(i),
{
    lemma_first_marker(buffer, start);
}

/// Where no marker stands from `start` on, `first_marker` finds nothing.
pub proof fn lemma_no_marker(buffer: Seq<u8>, start: int)
    requires
        0 <= start,
        forall|j: int| start <= j ==> !marker_at(buffer, j),
    ensures
        first_marker(buffer, start) is None,
{
    lemma_first_marker(buffer, start);
}

/// Where no marker stands between the fourth byte and `from`, the search for
/// the end of a frame may start at `from`.
pub proof fn lemma_search_may_skip(buffer: Seq<u8>, from: int)
    requires
        3 <= from,
        forall|j: int| 3 <= j < from ==> !marker_at(buffer, j),
    ensures
        first_marker(buffer, 3) == first_marker(buffer, from),
{
    lemma_first_marker(buffer, from);
    match first_marker(buffer, from) {
        Some(at) => {
            lemma_first_marker_is(buffer, 3, at);
        },
        None => {
            lemma_no_marker(buffer, 3);
        },
    }
}

/// Looks for the start marker in `buffer`, from `start_offset` on.
pub fn find_magic_bytes(start_offset: usize, buffer: &[u8]) -> (found: Option<usize>)
    ensures
        match found {
            Some(i) => first_marker(buffer@, start_offset as int) == Some(i as int),
            None => first_marker(buffer@, start_offset as int) is None,
        },
{
    let len: usize = buffer.len();
    if len < 3 || start_offset > len - 3 {
        return None;
    }
    let mut i: usize = start_offset;
    while i <= len - 3
        invariant
            len == buffer@.len(),
            len >= 3,
            start_offset <= i <= len - 2,
            first_marker(buffer@, start_offset as int) == first_marker(buffer@, i as int),
        decreases len - i,
    {
        if buffer[i] == 0xFF && buffer[i + 1] == 0xD8 && buffer[i + 2] == 0xFF {
            return Some(i);
        }
        i += 1;
    }
    None
}

/// The frames that are complete in a run of bytes, and the bytes that are
/// left behind them.
pub struct Cut {
    pub frames: Seq<Seq<u8>>,
    pub rest: Seq<u8>,
}

/// Cuts bytes that begin a frame into the frames that are complete in them
/// and the beginning of the frame that is not. A frame ends where the next
/// marker starts that does not overlap the frame's own.
pub open spec fn cut(data: Seq<u8>) -> Cut
    decreases data.len(),
{
    match first_marker(data, 3) {
        Some(next) => if 3 <= next <= data.len() {
            let behind = cut(data.skip(next));
            Cut { frames: seq![data.take(next)] + behind.frames, rest: behind.rest }
        } else {
            Cut { frames: Seq::empty(), rest: data }
        },
        None => Cut { frames: Seq::empty(), rest: data },
    }
}

/// The last two bytes, or all of them where there are no more: what may be
/// the beginning of a marker that the bytes to come complete.
pub open spec fn tail2(bytes: Seq<u8>) -> Seq<u8> {
    if bytes.len() <= 2 {
        bytes
    } else {
        bytes.skip(bytes.len() - 2)
    }
}

/// The splitter as a value: whether a frame is in progress, and the bytes
/// held. A frame in progress begins with the first byte held.
pub struct Scan {
    pub started: bool,
    pub held: Seq<u8>,
}

/// What bytes bring: the splitter after them and the frames that they
/// complete.
pub struct Fed {
    pub scan: Scan,
    pub frames: Seq<Seq<u8>>,
}

/// What bytes bring while no frame is in progress: everything before the
/// first marker is dropped, and where there is no marker all but the last two
/// bytes.
pub open spec fn search(all: Seq<u8>) -> Fed {
    match first_marker(all, 0) {
        Some(first) => {
            let found = cut(all.skip(first));
            Fed { scan: Scan { started: true, held: found.rest }, frames: found.frames }
        },
        None => Fed { scan: Scan { started: false, held: tail2(all) }, frames: Seq::empty() },
    }
}

/// What a chunk brings to a splitter that has room for it.
pub open spec fn absorb(scan: Scan, chunk: Seq<u8>) -> Fed {
    if scan.started {
        let found = cut(scan.held + chunk);
        Fed { scan: Scan { started: true, held: found.rest }, frames: found.frames }
    } else {
        search(scan.held + chunk)
    }
}

/// Whether a frame in progress has grown so long that less than the reserve
/// is left. Such a frame is given up when the next bytes come.
pub open spec fn gives_up(scan: Scan) -> bool {
    scan.started && scan.held.len() >= STREAM_BUFFER_LEN - STREAM_RESERVE
}

/// The splitter as the next bytes find it: as it is, or, where the frame in
/// progress is given up, without a frame and with the last two bytes only.
pub open spec fn base(scan: Scan) -> Scan {
    if gives_up(scan) {
        Scan { started: false, held: tail2(scan.held) }
    } else {
        scan
    }
}

/// The longest chunk that can be fed next.
pub open spec fn room_of(scan: Scan) -> int {
    STREAM_BUFFER_LEN - base(scan).held.len()
}

/// The splitter after a chunk.
pub open spec fn scan_after(scan: Scan, chunk: Seq<u8>) -> Scan {
    if chunk.len() == 0 {
        scan
    } else if chunk.len() > room_of(scan) {
        Scan { started: false, held: Seq::empty() }
    } else {
        absorb(base(scan), chunk).scan
    }
}

/// What became of a chunk, with the frames as sequences.
pub enum SplitKind {
    Idle,
    NoStart,
    Started,
    Buffered,
    Frames(Seq<Seq<u8>>),
    Overflow,
}

/// What the splitter answers to a chunk.
pub open spec fn split_of(scan: Scan, chunk: Seq<u8>) -> SplitKind {
    if chunk.len() == 0 {
        SplitKind::Idle
    } else if chunk.len() > room_of(scan) {
        SplitKind::Overflow
    } else {
        let fed = absorb(base(scan), chunk);
        if fed.frames.len() > 0 {
            SplitKind::Frames(fed.frames)
        } else if !fed.scan.started {
            SplitKind::NoStart
        } else if base(scan).started {
            SplitKind::Buffered
        } else {
            SplitKind::Started
        }
    }
}

/// The frames that an answer hands out.
pub open spec fn frames_of(split: SplitKind) -> Seq<Seq<u8>> {
    match split {
        SplitKind::Frames(frames) => frames,
        _ => Seq::empty(),
    }
}

/// What became of a chunk that was fed to the splitter.
#[derive(Debug, Clone)]
pub enum Split {
    /// The chunk was empty: there is nothing to do but to wait.
    Idle,
    /// No frame is in progress and none has started yet.
    NoStart,
    /// A start marker was found: a frame is in progress now.
    Started,
    /// The chunk was added to the frame in progress, which goes on.
    Buffered,
    /// The chunk completed these frames, which are handed out in the order of
    /// the stream; the frame behind them is in progress.
    Frames(Vec<Vec<u8>>),
    /// The chunk is longer than the room that was left; everything was
    /// dropped.
    Overflow,
}

/// Byte vectors as sequences.
pub open spec fn views(frames: Seq<Vec<u8>>) -> Seq<Seq<u8>> {
    Seq::new(frames.len(), |i: int| frames[i]@)
}

impl View for Split {
    type V = SplitKind;

    open spec fn view(&self) -> SplitKind {
        match self {
            Split::Idle => SplitKind::Idle,
            Split::NoStart => SplitKind::NoStart,
            Split::Started => SplitKind::Started,
            Split::Buffered => SplitKind::Buffered,
            Split::Frames(frames) => SplitKind::Frames(views(frames@)),
            Split::Overflow => SplitKind::Overflow,
        }
    }
}

/// The last two bytes of a buffer, or all of it where it has no more.
fn tail_of(buffer: &[u8]) -> (tail: Vec<u8>)
    ensures
        tail@ == tail2(buffer@),
{
    let len: usize = buffer.len();
    if len <= 2 {
        slice_to_vec(buffer)
    } else {
        slice_to_vec(slice_subrange(buffer, len - 2, len))
    }
}

/// Cuts the complete frames off the front of `data`. The search for the end
/// of the first frame starts at `from`, before which no marker stands.
fn cut_frames(data: Vec<u8>, from: usize) -> (found: (Vec<Vec<u8>>, Vec<u8>))
    requires
        3 <= from,
        forall|j: int| 3 <= j < from ==> !marker_at(data@, j),
    ensures
        views(found.0@) == cut(data@).frames,
        found.1@ == cut(data@).rest,
        found.1@.len() <= data@.len(),
        first_marker(found.1@, 3) is None,
{
    let ghost whole = data@;
    let mut frames: Vec<Vec<u8>> = Vec::new();
    let mut rest: Vec<u8> = data;
    let mut next: Option<usize> = find_magic_bytes(from, rest.as_slice());
    proof {
        lemma_search_may_skip(whole, from as int);
    }
    assert(views(frames@) + cut(rest@).frames =~= cut(whole).frames);
    while next.is_some()
        invariant
            cut(whole).frames == views(frames@) + cut(rest@).frames,
            cut(whole).rest == cut(rest@).rest,
            rest@.len() <= whole.len(),
            match next {
                Some(i) => first_marker(rest@, 3) == Some(i as int),
                None => first_marker(rest@, 3) is None,
            },
        decreases rest@.len(),
    {
        let at: usize = next.unwrap();
        proof {
            lemma_first_marker(rest@, 3);
        }
        let ghost before = rest@;
        let ghost done = views(frames@);
        let frame = slice_to_vec(slice_subrange(rest.as_slice(), 0, at));
        let behind = slice_to_vec(slice_subrange(rest.as_slice(), at, rest.len()));
        frames.push(frame);
        rest = behind;
        assert(views(frames@) =~= done.push(before.take(at as int)));
        assert(rest@ == before.skip(at as int));
        assert(views(frames@) + cut(rest@).frames =~= done + (seq![before.take(at as int)] + cut(
            rest@,
        ).frames));
        next = find_magic_bytes(3, rest.as_slice());
    }
    (frames, rest)
}

/// Splits an unframed byte stream into frames.
pub struct StreamSplitter {
    started: bool,
    buffer: Vec<u8>,
}

impl StreamSplitter {
    /// The splitter as a value.
    pub closed spec fn scan(&self) -> Scan {
        Scan { started: self.started, held: self.buffer@ }
    }

    /// The bytes held fit into the buffer. While no frame is in progress they
    /// are two at most; a frame in progress begins with a marker and holds
    /// no other that would end it.
    pub closed spec fn wf(&self) -> bool {
        &&& self.buffer@.len() <= STREAM_BUFFER_LEN
        &&& !self.started ==> self.buffer@.len() <= 2
        &&& self.started ==> marker_at(self.buffer@, 0) && first_marker(self.buffer@, 3) is None
    }

    /// A splitter that holds nothing.
    pub fn new() -> (splitter: StreamSplitter)
        ensures
            splitter.wf(),
            splitter.scan() == (Scan { started: false, held: Seq::empty() }),
    {
        StreamSplitter { started: false, buffer: Vec::new() }
    }

    /// The longest chunk that can be fed next.
    pub fn room(&self) -> (room: usize)
        requires
            self.wf(),
        ensures
            room == room_of(self.scan()),
            STREAM_RESERVE < room <= STREAM_BUFFER_LEN,
    {
        if self.started && self.buffer.len() >= STREAM_BUFFER_LEN - STREAM_RESERVE {
            STREAM_BUFFER_LEN - 2
        } else {
            STREAM_BUFFER_LEN - self.buffer.len()
        }
    }

    /// Whether the frame in progress has grown so long that it is given up
    /// when the next bytes come.
    pub fn out_of_space(&self) -> (full: bool)
        ensures
            full == gives_up(self.scan()),
    {
        self.started && self.buffer.len() >= STREAM_BUFFER_LEN - STREAM_RESERVE
    }

    /// Takes the bytes that were read from the stream next.
    pub fn feed(&mut self, chunk: &[u8]) -> (split: Split)
        requires
            old(self).wf(),
        ensures
            final(self).wf(),
            final(self).scan() == scan_after(old(self).scan(), chunk@),
            split@ == split_of(old(self).scan(), chunk@),
            forall|k: int|
                0 <= k < frames_of(split@).len() ==> marker_at(#[trigger] frames_of(split@)[k], 0),
    {
        if chunk.len() == 0 {
            return Split::Idle;
        }
        if chunk.len() > self.room() {
            self.started = false;
            self.buffer.clear();
            return Split::Overflow;
        }
        let given_up: bool = self.out_of_space();
        let was_started: bool = self.started && !given_up;
        let mut all: Vec<u8> = if given_up {
            tail_of(self.buffer.as_slice())
        } else {
            slice_to_vec(self.buffer.as_slice())
        };
        let ghost found = base(old(self).scan());
        assert(found.started == was_started);
        assert(all@ == found.held);
        let held: usize = all.len();
        all.extend_from_slice(chunk);
        assert(all@ == found.held + chunk@);
        let from: usize = if was_started && held >= 5 {
            held - 2
        } else {
            3
        };
        let data: Vec<u8> = if was_started {
            proof {
                lemma_first_marker(found.held, 3);
                assert(all@[0] == found.held[0] && all@[1] == found.held[1] && all@[2]
                    == found.held[2]);
                assert forall|j: int| 3 <= j < from implies !marker_at(all@, j) by {
                    assert(!marker_at(found.held, j));
                    assert(all@[j] == found.held[j] && all@[j + 1] == found.held[j + 1] && all@[j
                        + 2] == found.held[j + 2]);
                }
            }
            all
        } else {
            match find_magic_bytes(0, all.as_slice()) {
                Some(first) => {
                    proof {
                        lemma_first_marker(all@, 0);
                    }
                    let behind = slice_to_vec(slice_subrange(all.as_slice(), first, all.len()));
                    assert(behind@ == all@.skip(first as int));
                    assert(behind@[0] == all@[first as int] && behind@[1] == all@[first + 1]
                        && behind@[2] == all@[first + 2]);
                    behind
                },
                None => {
                    self.buffer = tail_of(all.as_slice());
                    self.started = false;
                    return Split::NoStart;
                },
            }
        };
        let ghost fed = absorb(found, chunk@);
        assert(fed.scan.started);
        assert(fed.scan.held == cut(data@).rest);
        assert(fed.frames == cut(data@).frames);
        proof {
            lemma_cut_begins_with_marker(data@);
        }
        let (frames, rest) = cut_frames(data, from);
        self.buffer = rest;
        self.started = true;
        assert(self.scan() == fed.scan);
        assert(views(frames@).len() == frames@.len());
        if frames.len() > 0 {
            Split::Frames(frames)
        } else if was_started {
            Split::Buffered
        } else {
            Split::Started
        }
    }
}

#[verifier::external_type_specification]
#[verifier::external_body]
#[verifier::reject_recursive_types(T)]
pub struct ExConsumer<T>(Consumer<T>);

/// `Read::read` of `ringbuf::Consumer<u8>` into a buffer of `limit` bytes:
/// takes the bytes that the ring buffer holds, `limit` at most, out of it. How
/// many there are depends on what the producer has written by then; an empty
/// ring buffer, which the call reports as an error, gives no bytes.
#[verifier::external_body]
fn ring_read(stream: &mut Consumer<u8>, limit: usize) -> (chunk: Vec<u8>)
    ensures
        chunk@.len() <= limit,
{
    let mut chunk = vec![0u8; limit];
    let count = stream.read(&mut chunk).unwrap_or(0);
    chunk.truncate(count);
    chunk
}

impl StreamSplitter {
    /// Reads from the ring buffer as much as there is room for and feeds it to
    /// the splitter. The answer is `Idle` where the ring buffer was empty, and
    /// never `Overflow`.
    pub fn pull(&mut self, stream: &mut Consumer<u8>) -> (split: Split)
        requires
            old(self).wf(),
        ensures
            final(self).wf(),
            exists|chunk: Seq<u8>|
                {
                    &&& chunk.len() <= room_of(old(self).scan())
                    &&& final(self).scan() == #[trigger] scan_after(old(self).scan(), chunk)
                    &&& split@ == split_of(old(self).scan(), chunk)
                },
            !(split is Overflow),
            forall|k: int|
                0 <= k < frames_of(split@).len() ==> marker_at(#[trigger] frames_of(split@)[k], 0),
    {
        let chunk = ring_read(stream, self.room());
        self.feed(chunk.as_slice())
    }
}

/// What is left behind the complete frames is no longer than the bytes that
/// were cut.
pub proof fn lemma_cut_rest_len(data: Seq<u8>)
    ensures
        cut(data).rest.len() <= data.len(),
    decreases data.len(),
{
    lemma_first_marker(data, 3);
    if let Some(next) = first_marker(data, 3) {
        lemma_cut_rest_len(data.skip(next));
    }
}

/// Bytes that begin with a marker are cut into frames that each begin with a
/// marker, and so does what is left behind them.
pub proof fn lemma_cut_begins_with_marker(data: Seq<u8>)
    requires
        marker_at(data, 0),
    ensures
        marker_at(cut(data).rest, 0),
        forall|k: int| 0 <= k < cut(data).frames.len() ==> marker_at(#[trigger] cut(data).frames[k], 0),
    decreases data.len(),
{
    lemma_first_marker(data, 3);
    if let Some(next) = first_marker(data, 3) {
        let behind = data.skip(next);
        assert(behind[0] == data[next] && behind[1] == data[next + 1] && behind[2] == data[next
            + 2]);
        lemma_cut_begins_with_marker(behind);
        let first = data.take(next);
        assert(first[0] == data[0] && first[1] == data[1] && first[2] == data[2]);
        assert forall|k: int| 0 <= k < cut(data).frames.len() implies marker_at(
            #[trigger] cut(data).frames[k],
            0,
        ) by {
            if k > 0 {
                assert(cut(data).frames[k] == cut(behind).frames[k - 1]);
            }
        }
    }
}

/// A frame that is followed by the marker of the next one, with no marker
/// between the frame's own and that one, is cut off whole: it is the first
/// frame handed out, and the cutting goes on at the next frame's marker.
pub proof fn lemma_cut_first_frame(frame: Seq<u8>, behind: Seq<u8>)
    requires
        frame.len() >= 3,
        marker_at(behind, 0),
        forall|j: int| 3 <= j < frame.len() ==> !marker_at(frame + behind, j),
    ensures
        cut(frame + behind).frames == seq![frame] + cut(behind).frames,
        cut(frame + behind).rest == cut(behind).rest,
{
    let all = frame + behind;
    let at = frame.len() as int;
    assert(all[at] == behind[0] && all[at + 1] == behind[1] && all[at + 2] == behind[2]);
    lemma_first_marker_is(all, 3, at);
    assert(all.skip(at) =~= behind);
    assert(all.take(at) =~= frame);
}

/// Cutting bytes and then, with more bytes behind what was left, cutting
/// again gives the frames and the rest that cutting all the bytes at once
/// gives.
pub proof fn lemma_cut_extends(data: Seq<u8>, more: Seq<u8>)
    ensures
        cut(data + more).frames == cut(data).frames + cut(cut(data).rest + more).frames,
        cut(data + more).rest == cut(cut(data).rest + more).rest,
    decreases data.len(),
{
    let all = data + more;
    lemma_first_marker(data, 3);
    match first_marker(data, 3) {
        Some(next) => {
            assert(all[next] == data[next] && all[next + 1] == data[next + 1] && all[next + 2]
                == data[next + 2]);
            assert forall|j: int| 3 <= j < next implies !marker_at(all, j) by {
                assert(!marker_at(data, j));
                assert(all[j] == data[j] && all[j + 1] == data[j + 1] && all[j + 2] == data[j + 2]);
            }
            lemma_first_marker_is(all, 3, next);
            let behind = data.skip(next);
            assert(all.skip(next) =~= behind + more);
            assert(all.take(next) =~= data.take(next));
            lemma_cut_extends(behind, more);
            assert(cut(all).frames =~= cut(data).frames + cut(cut(data).rest + more).frames);
        },
        None => {
            assert(cut(data).frames + cut(all).frames =~= cut(all).frames);
        },
    }
}

/// Looking for a start in bytes and then, with more bytes behind what was
/// kept, going on gives what looking in all the bytes at once gives.
pub proof fn lemma_search_extends(bytes: Seq<u8>, more: Seq<u8>)
    ensures
        search(bytes + more).scan == absorb(search(bytes).scan, more).scan,
        search(bytes + more).frames == search(bytes).frames + absorb(
            search(bytes).scan,
            more,
        ).frames,
{
    let all = bytes + more;
    lemma_first_marker(bytes, 0);
    lemma_first_marker(all, 0);
    match first_marker(bytes, 0) {
        Some(first) => {
            assert(all[first] == bytes[first] && all[first + 1] == bytes[first + 1] && all[first
                + 2] == bytes[first + 2]);
            assert forall|j: int| 0 <= j < first implies !marker_at(all, j) by {
                assert(!marker_at(bytes, j));
                assert(all[j] == bytes[j] && all[j + 1] == bytes[j + 1] && all[j + 2] == bytes[j
                    + 2]);
            }
            lemma_first_marker_is(all, 0, first);
            assert(all.skip(first) =~= bytes.skip(first) + more);
            lemma_cut_extends(bytes.skip(first), more);
        },
        None => {
            let kept = tail2(bytes);
            let short = kept + more;
            let dropped = bytes.len() - kept.len();
            assert(all.skip(dropped) =~= short);
            assert forall|j: int| 0 <= j < dropped implies !marker_at(all, j) by {
                assert(!marker_at(bytes, j));
                assert(j + 3 <= bytes.len());
                assert(all[j] == bytes[j] && all[j + 1] == bytes[j + 1] && all[j + 2] == bytes[j
                    + 2]);
            }
            assert forall|j: int| 0 <= j implies (marker_at(short, j) <==> marker_at(
                all,
                j + dropped,
            )) by {
                if j + 3 <= short.len() {
                    assert(short[j] == all[j + dropped] && short[j + 1] == all[j + 1 + dropped]
                        && short[j + 2] == all[j + 2 + dropped]);
                }
            }
            lemma_first_marker(short, 0);
            match first_marker(short, 0) {
                Some(first) => {
                    assert forall|j: int| 0 <= j < first + dropped implies !marker_at(all, j) by {
                        if j >= dropped {
                            assert(marker_at(short, j - dropped) <==> marker_at(all, j));
                        }
                    }
                    lemma_first_marker_is(all, 0, first + dropped);
                    assert(all.skip(first + dropped) =~= short.skip(first));
                },
                None => {
                    assert forall|j: int| 0 <= j implies !marker_at(all, j) by {
                        if j >= dropped {
                            assert(marker_at(short, j - dropped) <==> marker_at(all, j));
                        }
                    }
                    lemma_no_marker(all, 0);
                    assert(tail2(all) =~= tail2(short));
                },
            }
            assert(search(bytes).frames + search(short).frames =~= search(short).frames);
        },
    }
}

/// How the reads cut the stream up does not matter: two chunks fed one after
/// the other bring the same frames, and leave the splitter as it is, as the
/// two fed as one chunk. This holds while the frame in progress is not given
/// up for want of room.
pub proof fn lemma_chunking_is_immaterial(scan: Scan, first: Seq<u8>, second: Seq<u8>)
    requires
        !gives_up(scan),
        scan.held.len() + first.len() + second.len() < STREAM_BUFFER_LEN - STREAM_RESERVE,
    ensures
        scan_after(scan_after(scan, first), second) == scan_after(scan, first + second),
        frames_of(split_of(scan, first)) + frames_of(split_of(scan_after(scan, first), second))
            == frames_of(split_of(scan, first + second)),
{
    let both = first + second;
    let empty = Seq::<Seq<u8>>::empty();
    if first.len() == 0 {
        assert(both =~= second);
        assert(empty + frames_of(split_of(scan, second)) =~= frames_of(split_of(scan, second)));
    } else if second.len() == 0 {
        assert(both =~= first);
        assert(frames_of(split_of(scan, first)) + empty =~= frames_of(split_of(scan, first)));
    } else {
        let between = absorb(scan, first);
        let all = scan.held + first;
        assert(scan.held + both =~= all + second);
        if scan.started {
            lemma_cut_rest_len(all);
            lemma_cut_extends(all, second);
        } else {
            lemma_first_marker(all, 0);
            if let Some(at) = first_marker(all, 0) {
                lemma_cut_rest_len(all.skip(at));
            }
            lemma_search_extends(all, second);
        }
        assert(between.scan.held.len() <= all.len());
        assert(!gives_up(between.scan));
        let after = absorb(between.scan, second);
        let whole = absorb(scan, both);
        assert(whole.scan == after.scan);
        assert(whole.frames == between.frames + after.frames);
        assert(frames_of(split_of(scan, first)) =~= between.frames);
        assert(frames_of(split_of(between.scan, second)) =~= after.frames);
        assert(frames_of(split_of(scan, both)) =~= whole.frames);
    }
}

} // verus!
