//! Download planning: which byte ranges of a package blob to fetch, and how
//! fetched chunks split into the operations' scratch files.
use std::ops::Range;
use vstd::prelude::*;

use crate::metadata::Operation;
use crate::state::{UpdatePosition, pos_le};

verus! {

/// Distance under which two ranges are fetched as one.
pub const MERGE_DISTANCE: u64 = 500 * 1024;

/// The ranges to fetch for `ops`, in order: each carrying operation's bytes,
/// the first one starting `offset` bytes in; a range that starts at most
/// `merge` bytes after the previous one ends extends it instead.
pub open spec fn ranges_of(ops: Seq<Operation>, offset: int, merge: int) -> Seq<(int, int)>
    decreases ops.len(),
{
    if ops.len() == 0 {
        Seq::empty()
    } else {
        let prev = ranges_of(ops.drop_last(), offset, merge);
        let o = ops.last();
        if !o.carries_data() {
            prev
        } else {
            let start = o.spec_data_offset() + if prev.len() == 0 {
                offset
            } else {
                0
            };
            let end = o.spec_data_offset() + o.spec_data_size();
            if prev.len() > 0 && start <= prev.last().1 + merge {
                prev.update(prev.len() - 1, (prev.last().0, end))
            } else {
                prev.push((start, end))
            }
        }
    }
}

/// Every operation's range, shifted by `offset`, fits in a `u64`.
pub open spec fn ranges_fit(ops: Seq<Operation>, offset: int) -> bool {
    forall|i: int|
        0 <= i < ops.len() ==> (#[trigger] ops[i]).range_fits() && ops[i].spec_data_offset()
            + offset <= u64::MAX
}

pub open spec fn range_views(v: Seq<Range<u64>>) -> Seq<(int, int)> {
    v.map_values(|r: Range<u64>| (r.start as int, r.end as int))
}

/// Constructs the list of ranges to download.
pub fn ranges(operations: &[Operation], offset: u64, merge_distance: u64) -> (r: Vec<Range<u64>>)
    requires
        ranges_fit(operations@, offset as int),
    ensures
        range_views(r@) == ranges_of(operations@, offset as int, merge_distance as int),
{
    let mut out: Vec<Range<u64>> = Vec::new();
    let mut i: usize = 0;
    while i < operations.len()
        invariant
            i <= operations@.len(),
            ranges_fit(operations@, offset as int),
            range_views(out@) == ranges_of(
                operations@.subrange(0, i as int),
                offset as int,
                merge_distance as int,
            ),
        decreases operations@.len() - i,
    {
        let ghost sub = operations@.subrange(0, i + 1);
        assert(sub.drop_last() =~= operations@.subrange(0, i as int));
        assert(sub.last() == operations@[i as int]);
        let o = &operations[i];
        assert(o.range_fits());
        match o.range() {
            Some(range) => {
                let start = if out.len() == 0 {
                    range.start + offset
                } else {
                    range.start
                };
                let n = out.len();
                let merge = n > 0 && (start <= out[n - 1].end || start - out[n - 1].end
                    <= merge_distance);
                if merge {
                    let first = out[n - 1].start;
                    let ghost prev = out@;
                    out.set(n - 1, Range { start: first, end: range.end });
                    proof {
                        assert(range_views(out@) =~= range_views(prev).update(
                            n - 1,
                            (first as int, range.end as int),
                        ));
                    }
                } else {
                    let ghost prev = out@;
                    out.push(Range { start, end: range.end });
                    proof {
                        assert(range_views(out@) =~= range_views(prev).push(
                            (start as int, range.end as int),
                        ));
                    }
                }
            },
            None => {},
        }
        i = i + 1;
    }
    proof {
        assert(operations@.subrange(0, operations@.len() as int) =~= operations@);
    }
    out
}

/// A carrying operation of a package: its index and its range in the blob.
#[derive(Debug, Clone, Copy, PartialEq, Eq, Structural)]
pub struct Carrier {
    pub operation_idx: usize,
    pub start: u64,
    pub end: u64,
}

/// One write of downloaded bytes into an operation's scratch file.
#[derive(Debug, Clone, Copy, PartialEq, Eq, Structural)]
pub struct ChunkWrite {
    /// The operation whose scratch file gets the bytes
    pub operation_idx: usize,
    /// Where the bytes start in the chunk
    pub chunk_offset: usize,
    /// How many bytes
    pub len: usize,
    /// Where the bytes go in the scratch file
    pub file_offset: u64,
    /// First write to that file: truncate it to `file_offset` before writing
    pub begin: bool,
}

/// Splits downloaded chunks among the operations' scratch files and keeps
/// the `available` watermark.
#[derive(Debug)]
pub struct Demux {
    /// The available watermark: the operation being written and how many of
    /// its bytes are in its scratch file
    pub position: UpdatePosition,
    /// Position in the blob of the next byte to write
    pub pos: u64,
    /// Index (into the carriers) of the next operation to open
    pub next: usize,
    /// The carrier being written, if one is open
    pub current: Option<Carrier>,
    /// Where the download resumes
    pub start: UpdatePosition,
}

/// The carriers are in operation order and their ranges are well formed.
pub open spec fn carriers_ok(c: Seq<Carrier>) -> bool {
    &&& forall|i: int| 0 <= i < c.len() ==> (#[trigger] c[i]).start <= c[i].end
    &&& forall|i: int, j: int| 0 <= i < j < c.len() ==> #[trigger] c[i].operation_idx < #[trigger] c[j].operation_idx
    &&& forall|i: int| 0 <= i < c.len() ==> (#[trigger] c[i]).operation_idx < usize::MAX
    &&& forall|i: int| 0 < i < c.len() ==> c[i - 1].end <= (#[trigger] c[i]).start
    &&& forall|i: int, j: int| 0 <= i < j < c.len() ==> (#[trigger] c[i]).end <= (#[trigger] c[j]).end
}

/// Each carrier's bytes follow the previous one's without a gap, as the
/// carrying operations of a package cover its blob.
pub open spec fn gapless(c: Seq<Carrier>) -> bool {
    forall|i: int| 0 < i < c.len() ==> c[i - 1].end == (#[trigger] c[i]).start
}

impl Demux {
    pub open spec fn wf(&self, c: Seq<Carrier>) -> bool {
        &&& carriers_ok(c)
        &&& self.next <= c.len()
        &&& match self.current {
            Some(cur) => {
                &&& self.next > 0
                &&& cur == c[self.next - 1]
                &&& self.position.operation_idx == cur.operation_idx
            },
            None => {
                &&& self.next > 0 ==> self.position == UpdatePosition {
                    operation_idx: (c[self.next - 1].operation_idx + 1) as usize,
                    byte_idx: 0,
                }
                &&& self.next == 0 ==> self.position == self.start
            },
        }
        &&& forall|i: int| 0 <= i < c.len() ==> (#[trigger] c[i]).operation_idx >= self.start.operation_idx
        &&& match self.current {
            Some(cur) => {
                &&& self.pos >= cur.start ==> self.pos <= cur.end && self.position.byte_idx
                    == self.pos - cur.start
                &&& self.pos < cur.start ==> self.position.byte_idx == 0
            },
            None => 0 < self.next < c.len() ==> self.pos <= c[self.next as int].start,
        }
    }

    /// The next carrier can be opened at blob position `pos`: before its
    /// first byte (with nothing to resume), or exactly at its resume offset.
    pub open spec fn can_open(&self, c: Seq<Carrier>, pos: int) -> bool {
        self.current is None && self.next < c.len() ==> {
            let n = c[self.next as int];
            let r = resume_offset(self.start, n.operation_idx);
            (pos <= n.start && r == 0) || (pos == n.start + r && pos <= n.end)
        }
    }

    /// Number of carriers opened so far.
    pub open spec fn opened(&self) -> nat {
        self.next as nat
    }

    /// A demultiplexer resuming at `start`, before the first carrier.
    pub fn new(start: UpdatePosition, carriers: &[Carrier]) -> (r: Demux)
        requires
            carriers_ok(carriers@),
            forall|i: int|
                0 <= i < carriers@.len() ==> (#[trigger] carriers@[i]).operation_idx >= start.operation_idx,
        ensures
            r.wf(carriers@),
            r.position == start,
            r.opened() == 0,
    {
        Demux { position: start, pos: 0, next: 0, current: None, start }
    }

    /// Splits a chunk that starts at `range_start` in the blob and holds
    /// `chunk_len` bytes. Returns the writes to make, in order, and how many
    /// files and bytes they complete. A file opened when the chunk is used up
    /// gets an empty first write, so that it is truncated to its resume
    /// offset all the same.
    ///
    /// Each byte goes to the scratch file of the carrier it belongs to, at its
    /// blob position minus the carrier's start, so that a download cut into
    /// other chunks, or interrupted and resumed at the watermark, fills the
    /// files with the same bytes. The chunk must continue the open carrier,
    /// or start no later than the next one (at its resume offset for the
    /// carrier the download resumes in).
    ///
    /// The chunk is consumed whole unless every carrier is done first; when
    /// it falls within gapless carriers, exactly its bytes up to the last
    /// carrier's end are written, and `r.1` counts the carriers whose last
    /// byte it wrote.
    ///
    /// The watermark never moves back. A file is counted once, when its
    /// last byte is written; a write that ends exactly at the end of the
    /// last carrier leaves the watermark just past it, with no carrier
    /// left open.
    #[verifier::rlimit(100)]
    pub fn feed(&mut self, carriers: &[Carrier], range_start: u64, chunk_len: usize) -> (r: (
        Vec<ChunkWrite>,
        usize,
        u64,
    ))
        requires
            old(self).wf(carriers@),
            old(self).current is Some ==> range_start <= old(self).pos,
            old(self).can_open(
                carriers@,
                if old(self).pos < range_start {
                    range_start as int
                } else {
                    old(self).pos as int
                },
            ),
        ensures
            final(self).wf(carriers@),
            pos_le(old(self).position, final(self).position),
            final(self).opened() >= old(self).opened(),
            placed(
                r.0@,
                carriers@,
                if old(self).pos < range_start {
                    range_start as int
                } else {
                    old(self).pos as int
                },
            ),
            r.2 <= chunk_len,
            r.1 + (if final(self).current is Some {
                1int
            } else {
                0int
            }) == final(self).opened() - old(self).opened() + (if old(self).current is Some {
                1int
            } else {
                0int
            }),
            final(self).pos >= feed_start(*old(self), range_start),
            final(self).pos - feed_start(*old(self), range_start) <= chunk_len,
            final(self).pos - feed_start(*old(self), range_start) == chunk_len || (
            final(self).current is None && final(self).next == carriers@.len()),
            tight(*old(self), carriers@, feed_start(*old(self), range_start)) ==> r.2 == min(
                chunk_len as int,
                carriers@.last().end - feed_start(*old(self), range_start),
            ) && final(self).pos == feed_start(*old(self), range_start) + r.2,
            final(self).current matches Some(cur) ==> final(self).position.operation_idx
                == cur.operation_idx && (final(self).pos >= cur.start ==> final(self).position.byte_idx
                == final(self).pos - cur.start),
            writes_ok(r.0@, carriers@, chunk_len as int),
            begins_at_resume(r.0@, old(self).start),
            final(self).start == old(self).start,
            sum_lens(r.0@) == r.2,
            final(self).current is None && final(self).opened() == carriers@.len() && carriers@.len()
                > 0 ==> final(self).position.operation_idx == carriers@.last().operation_idx + 1
                && final(self).position.byte_idx == 0,
    {
        let mut writes: Vec<ChunkWrite> = Vec::new();
        let mut files: usize = 0;
        let mut bytes: u64 = 0;
        let mut cursor: usize = 0;
        if self.pos < range_start {
            self.pos = range_start;
        }
        let ghost eff = self.pos as int;
        let ghost old_pos = self.position;
        let ghost old_next = self.next;
        let ghost had_current = self.current is Some;
        let ghost is_tight = tight(*old(self), carriers@, eff);
        let ghost mut completed_here = false;
        let mut stop = false;
        while !stop
            invariant
                self.wf(carriers@),
                pos_le(old_pos, self.position),
                self.next >= old_next,
                had_current ==> old_next > 0,
                cursor <= chunk_len,
                bytes <= cursor,
                files + (if self.current is Some { 1int } else { 0int }) == self.next - old_next + (
                if had_current {
                    1int
                } else {
                    0int
                }),
                is_tight == tight(*old(self), carriers@, eff),
                is_tight ==> bytes == self.pos - eff,
                is_tight ==> self.pos <= carriers@.last().end,
                is_tight ==> match self.current {
                    Some(c) => self.pos >= c.start,
                    None => self.next < carriers@.len() ==> self.pos >= carriers@[self.next as int].start,
                },
                is_tight ==> (self.current is Some || self.next < carriers@.len() || completed_here),
                completed_here && self.current is None ==> self.next > 0 && self.pos
                    == carriers@[self.next - 1].end,
                stop ==> cursor == chunk_len || (self.current is None && self.next
                    == carriers@.len()),
                writes_ok(writes@, carriers@, cursor as int),
                begins_at_resume(writes@, self.start),
                self.start == old(self).start,
                sum_lens(writes@) == bytes,
                self.pos == eff + cursor,
                self.can_open(carriers@, self.pos as int),
                placed(writes@, carriers@, eff),
            decreases chunk_len - cursor + 2 * (carriers@.len() - self.next) + (if self.current is Some {
                1int
            } else {
                0int
            }) + (if stop {
                0int
            } else {
                1int
            }),
        {
            let opened_now = self.open_next(carriers);
            if self.current.is_none() {
                stop = true;
            } else if cursor == chunk_len {
                let cur = self.current.unwrap();
                if opened_now {
                    // the scratch file is opened (and truncated) even if no byte
                    // of this chunk goes into it
                    let w = ChunkWrite {
                        operation_idx: cur.operation_idx,
                        chunk_offset: cursor,
                        len: 0,
                        file_offset: self.position.byte_idx,
                        begin: true,
                    };
                    proof {
                        assert(carriers@[self.next - 1].operation_idx == w.operation_idx);
                    }
                    push_write(&mut writes, w, carriers, self.start, Ghost(eff));
                }
                stop = true;
            } else {
                let cur = self.current.unwrap();
                let (step, next_cursor, done) = self.write_step(carriers, cur, cursor, chunk_len, opened_now);
                cursor = next_cursor;
                match step {
                    Some(w) => {
                        proof {
                            assert(carriers@[self.next - 1].operation_idx == w.operation_idx);
                            assert(carriers@[self.next - 1] == cur);
                        }
                        push_write(&mut writes, w, carriers, self.start, Ghost(eff));
                        bytes = bytes + w.len as u64;
                    },
                    None => {},
                }
                if done {
                    files = files + 1;
                    proof {
                        completed_here = true;
                    }
                }
            }
        }
        (writes, files, bytes)
    }

    /// Opens the next carrier when none is open; tells whether it did.
    fn open_next(&mut self, carriers: &[Carrier]) -> (opened: bool)
        requires
            old(self).wf(carriers@),
            old(self).can_open(carriers@, old(self).pos as int),
        ensures
            final(self).wf(carriers@),
            pos_le(old(self).position, final(self).position),
            final(self).pos == old(self).pos,
            final(self).start == old(self).start,
            opened ==> old(self).current is None && final(self).current is Some && final(self).next
                == old(self).next + 1 && final(self).position.byte_idx == resume_offset(
                final(self).start,
                final(self).position.operation_idx,
            ),
            !opened ==> *final(self) == *old(self),
            old(self).current is None && old(self).next < carriers@.len() ==> opened,
    {
        if self.current.is_none() && self.next < carriers.len() {
            let c = carriers[self.next];
            let file_pos = if c.operation_idx == self.start.operation_idx {
                self.start.byte_idx
            } else {
                0
            };
            proof {
                if self.next > 0 {
                    assert(carriers@[self.next - 1].operation_idx < c.operation_idx);
                }
            }
            self.position = UpdatePosition { operation_idx: c.operation_idx, byte_idx: file_pos };
            self.current = Some(c);
            self.next = self.next + 1;
            true
        } else {
            false
        }
    }

    /// Writes what the chunk holds for the open carrier `cur`, from
    /// `cursor` on; returns the write (if any bytes are left after skipping
    /// bytes before the carrier), the new cursor, and whether the carrier is
    /// complete.
    fn write_step(
        &mut self,
        carriers: &[Carrier],
        cur: Carrier,
        cursor: usize,
        chunk_len: usize,
        opened_now: bool,
    ) -> (r: (Option<ChunkWrite>, usize, bool))
        requires
            old(self).wf(carriers@),
            old(self).current == Some(cur),
            cursor < chunk_len,
            opened_now ==> old(self).position.byte_idx == resume_offset(
                old(self).start,
                cur.operation_idx,
            ),
        ensures
            final(self).wf(carriers@),
            pos_le(old(self).position, final(self).position),
            final(self).next == old(self).next,
            final(self).start == old(self).start,
            cursor <= r.1 <= chunk_len,
            r.1 > cursor || r.2,
            final(self).pos == old(self).pos + (r.1 - cursor),
            final(self).can_open(carriers@, final(self).pos as int),
            (r.0 matches Some(w) && w.len > 0) ==> placed_at(
                r.0->Some_0,
                cur,
                old(self).pos + (r.0->Some_0.chunk_offset - cursor),
            ),
            r.2 <==> final(self).current is None,
            !r.2 ==> final(self).current == old(self).current,
            r.2 ==> final(self).pos == cur.end,
            final(self).pos <= cur.end || final(self).pos == old(self).pos,
            old(self).pos >= cur.start ==> r.0 is Some && r.0->Some_0.len == r.1 - cursor
                && final(self).pos >= cur.start,
            match r.0 {
                Some(w) => w.chunk_offset >= cursor && w.chunk_offset + w.len == r.1
                    && w.operation_idx == cur.operation_idx && w.begin == opened_now && (w.begin
                    ==> w.file_offset == resume_offset(old(self).start, cur.operation_idx)),
                None => !r.2 && !opened_now,
            },
    {
        let mut cursor = cursor;
        if cur.start > self.pos {
            let gap = cur.start - self.pos;
            let left = (chunk_len - cursor) as u64;
            let skip = if gap < left {
                gap
            } else {
                left
            };
            cursor = cursor + skip as usize;
            self.pos = self.pos + skip;
            if cursor == chunk_len {
                if opened_now {
                    let w = ChunkWrite {
                        operation_idx: cur.operation_idx,
                        chunk_offset: cursor,
                        len: 0,
                        file_offset: self.position.byte_idx,
                        begin: true,
                    };
                    return (Some(w), cursor, false);
                }
                return (None, cursor, false);
            }
        }
        let remaining = if cur.end > self.pos {
            cur.end - self.pos
        } else {
            0
        };
        let left = (chunk_len - cursor) as u64;
        let len = if left < remaining {
            left
        } else {
            remaining
        };
        let w = ChunkWrite {
            operation_idx: cur.operation_idx,
            chunk_offset: cursor,
            len: len as usize,
            file_offset: self.position.byte_idx,
            begin: opened_now,
        };
        cursor = cursor + len as usize;
        self.pos = self.pos + len;
        self.position.byte_idx = if self.position.byte_idx <= u64::MAX - len {
            self.position.byte_idx + len
        } else {
            u64::MAX
        };
        if len == remaining {
            self.position = UpdatePosition { operation_idx: cur.operation_idx + 1, byte_idx: 0 };
            self.current = None;
            (Some(w), cursor, true)
        } else {
            (Some(w), cursor, false)
        }
    }
}

/// Where the first write into an operation's scratch file starts: at the
/// resume offset for the operation the download resumes in, else at 0.
pub open spec fn resume_offset(start: UpdatePosition, operation_idx: usize) -> u64 {
    if operation_idx == start.operation_idx {
        start.byte_idx
    } else {
        0
    }
}

/// Every first write into a scratch file starts at its resume offset.
pub open spec fn begins_at_resume(w: Seq<ChunkWrite>, start: UpdatePosition) -> bool {
    forall|i: int|
        0 <= i < w.len() && (#[trigger] w[i]).begin ==> w[i].file_offset == resume_offset(
            start,
            w[i].operation_idx,
        )
}

/// A write of carrier `cur` whose first byte is at blob position `blob`
/// goes to file offset `blob - cur.start`, within the carrier's range.
pub open spec fn placed_at(w: ChunkWrite, cur: Carrier, blob: int) -> bool {
    &&& w.file_offset == blob - cur.start
    &&& w.file_offset + w.len <= cur.end - cur.start
}

/// Every byte of the chunk (starting at blob position `eff`) goes to its
/// carrier's scratch file at its offset from the carrier's start: where a
/// byte lands depends on its blob position alone, however the download was
/// cut into chunks or resumed.
pub open spec fn placed(w: Seq<ChunkWrite>, c: Seq<Carrier>, eff: int) -> bool {
    forall|i: int|
        0 <= i < w.len() && (#[trigger] w[i]).len > 0 ==> exists|k: int|
            0 <= k < c.len() && c[k].operation_idx == w[i].operation_idx && placed_at(
                w[i],
                c[k],
                eff + w[i].chunk_offset,
            )
}

/// Appends a write after the ones before it in the chunk.
fn push_write(writes: &mut Vec<ChunkWrite>, w: ChunkWrite, carriers: &[Carrier], start: UpdatePosition, eff: Ghost<int>)
    requires
        writes_ok(old(writes)@, carriers@, w.chunk_offset as int),
        begins_at_resume(old(writes)@, start),
        placed(old(writes)@, carriers@, eff@),
        exists|k: int| 0 <= k < carriers@.len() && (#[trigger] carriers@[k]).operation_idx == w.operation_idx
            && (w.len > 0 ==> placed_at(w, carriers@[k], eff@ + w.chunk_offset)),
        w.begin ==> w.file_offset == resume_offset(start, w.operation_idx),
        sum_lens(old(writes)@) + w.len <= u64::MAX,
    ensures
        writes_ok(final(writes)@, carriers@, w.chunk_offset + w.len),
        begins_at_resume(final(writes)@, start),
        placed(final(writes)@, carriers@, eff@),
        sum_lens(final(writes)@) == sum_lens(old(writes)@) + w.len,
        final(writes)@ == old(writes)@.push(w),
{
    let ghost prev = writes@;
    writes.push(w);
    proof {
        assert(writes@.drop_last() =~= prev);
        assert forall|k: int| 0 <= k < writes@.len() implies (#[trigger] writes@[k]).chunk_offset
            + writes@[k].len <= w.chunk_offset + w.len by {
            if k < prev.len() {
                assert(writes@[k] == prev[k]);
            }
        }
        assert forall|k: int| 0 < k < writes@.len() implies writes@[k - 1].chunk_offset + writes@[k
            - 1].len <= (#[trigger] writes@[k]).chunk_offset by {
            if k < prev.len() {
                assert(writes@[k] == prev[k]);
                assert(writes@[k - 1] == prev[k - 1]);
            } else {
                assert(writes@[k - 1] == prev[k - 1]);
            }
        }
        assert forall|k: int| 0 <= k < writes@.len() implies exists|j: int|
            0 <= j < carriers@.len() && (#[trigger] carriers@[j]).operation_idx == (
            #[trigger] writes@[k]).operation_idx by {
            if k < prev.len() {
                assert(writes@[k] == prev[k]);
            }
        }
        assert forall|k: int|
            0 <= k < writes@.len() && (#[trigger] writes@[k]).begin implies writes@[k].file_offset
                == resume_offset(start, writes@[k].operation_idx) by {
            if k < prev.len() {
                assert(writes@[k] == prev[k]);
            }
        }
        assert forall|k: int| 0 <= k < writes@.len() && (#[trigger] writes@[k]).len > 0 implies exists|j: int|
            0 <= j < carriers@.len() && carriers@[j].operation_idx == writes@[k].operation_idx
                && placed_at(writes@[k], carriers@[j], eff@ + writes@[k].chunk_offset) by {
            if k < prev.len() {
                assert(writes@[k] == prev[k]);
            }
        }
    }
}

/// Where a chunk starts in the blob: at `range_start`, or where the
/// previous chunk of the same range stopped.
pub open spec fn feed_start(d: Demux, range_start: u64) -> int {
    if d.pos < range_start {
        range_start as int
    } else {
        d.pos as int
    }
}

/// A chunk starting at `eff` that falls within gapless carriers, with a
/// carrier open or still to open: all its bytes up to the last carrier's
/// end are written.
pub open spec fn tight(d: Demux, c: Seq<Carrier>, eff: int) -> bool {
    &&& gapless(c)
    &&& c.len() > 0
    &&& eff <= c.last().end
    &&& match d.current {
        Some(cur) => eff >= cur.start,
        None => d.next < c.len() && eff >= c[d.next as int].start,
    }
}

/// The smaller of two integers.
pub open spec fn min(a: int, b: int) -> int {
    if a < b {
        a
    } else {
        b
    }
}

/// Total length of some writes.
pub open spec fn sum_lens(w: Seq<ChunkWrite>) -> int
    decreases w.len(),
{
    if w.len() == 0 {
        0
    } else {
        sum_lens(w.drop_last()) + w.last().len
    }
}

/// The writes lie in order within the first `limit` bytes of the chunk,
/// without overlapping, each on a carrier.
pub open spec fn writes_ok(w: Seq<ChunkWrite>, c: Seq<Carrier>, limit: int) -> bool {
    &&& forall|i: int| 0 <= i < w.len() ==> (#[trigger] w[i]).chunk_offset + w[i].len <= limit
    &&& forall|i: int|
        0 < i < w.len() ==> w[i - 1].chunk_offset + w[i - 1].len <= (#[trigger] w[i]).chunk_offset
    &&& forall|i: int|
        0 <= i < w.len() ==> exists|k: int|
            0 <= k < c.len() && (#[trigger] c[k]).operation_idx == (#[trigger] w[i]).operation_idx
}

} // verus!
