//! A ring-buffer geometry pool: paired vertex/index byte ranges are allocated
//! in two fixed GPU backing buffers, the oldest entries are evicted first to
//! make room, and every live range stays aligned to the GPU copy alignment.
//!
//! The pool's bookkeeping is a deque of entries in insertion order. For each
//! backing buffer independently the live byte ranges form either one
//! contiguous run or two runs wrapping around the end of the buffer; this
//! `ring` predicate is stated below and maintained by every operation.

use std::collections::VecDeque;

use vstd::prelude::*;

use crate::coords::TileCoords;
use crate::geometry::OverAlignedVertexBuffer;

verus! {

/// Minimum alignment, in bytes, the GPU imposes on buffer-copy offsets and
/// lengths.
pub const COPY_BUFFER_ALIGNMENT: u64 = 4;

/// `bytes` rounded up to the next multiple of the GPU copy alignment.
pub open spec fn spec_align_up(bytes: int) -> int {
    bytes + (COPY_BUFFER_ALIGNMENT - bytes % (COPY_BUFFER_ALIGNMENT as int)) % (
    COPY_BUFFER_ALIGNMENT as int)
}

/// A half-open range `[start, end)` of bytes within a backing buffer.
#[derive(Clone, Copy, PartialEq, Eq, Structural, Debug)]
pub struct ByteRange {
    pub start: u64,
    pub end: u64,
}

impl ByteRange {
    /// Number of bytes the range covers.
    pub open spec fn len(self) -> int {
        self.end - self.start
    }

    /// A live range is ordered, stays inside a buffer of `size` bytes, and is
    /// aligned at both ends.
    pub open spec fn wf(self, size: u64) -> bool {
        &&& self.start <= self.end <= size
        &&& self.start % COPY_BUFFER_ALIGNMENT == 0
        &&& self.end % COPY_BUFFER_ALIGNMENT == 0
    }

    /// Two ranges share no byte.
    pub open spec fn disjoint(self, other: ByteRange) -> bool {
        self.end <= other.start || other.end <= self.start
    }
}

/// One live allocation: a paired byte range in each backing buffer, plus the
/// identity of the tile geometry stored there.
#[derive(Clone, Copy, Debug)]
pub struct IndexEntry {
    pub id: u32,
    pub coords: TileCoords,
    /// Size in bytes of one element of the index buffer.
    pub indices_stride: u64,
    /// Range of bytes within the vertex backing buffer.
    pub buffer_vertices: ByteRange,
    /// Range of bytes within the index backing buffer.
    pub buffer_indices: ByteRange,
    /// Number of semantically useful indices; the range may be longer because
    /// of alignment padding.
    pub usable_indices: u32,
}

impl IndexEntry {
    /// The entry's range in the selected backing buffer.
    pub open spec fn range(self, vertices: bool) -> ByteRange {
        if vertices {
            self.buffer_vertices
        } else {
            self.buffer_indices
        }
    }

    /// The index range to draw: all useful indices.
    pub fn indices_range(&self) -> (r: (u32, u32))
        ensures
            r.0 == 0 && r.1 == self.usable_indices,
    {
        (0, self.usable_indices)
    }

    /// Where this entry's index data lies in the index backing buffer.
    pub fn indices_buffer_range(&self) -> (r: ByteRange)
        ensures
            r == self.buffer_indices,
    {
        self.buffer_indices
    }

    /// Where this entry's vertex data lies in the vertex backing buffer.
    pub fn vertices_buffer_range(&self) -> (r: ByteRange)
        ensures
            r == self.buffer_vertices,
    {
        self.buffer_vertices
    }
}

/// The ranges of a sequence of entries on one side: the vertex side when
/// `vertices` is true, else the index side.
pub open spec fn ranges_of(entries: Seq<IndexEntry>, vertices: bool) -> Seq<ByteRange> {
    entries.map_values(|e: IndexEntry| e.range(vertices))
}

/// Every range is well formed for a buffer of `size` bytes.
pub open spec fn all_wf(rs: Seq<ByteRange>, size: u64) -> bool {
    forall|k: int| 0 <= k < rs.len() ==> (#[trigger] rs[k]).wf(size)
}

/// Within `[lo, hi)` each range begins exactly where its predecessor ends.
pub open spec fn contiguous(rs: Seq<ByteRange>, lo: int, hi: int) -> bool {
    forall|k: int| #![trigger rs[k]] lo <= k < hi - 1 ==> rs[k + 1].start == rs[k].end
}

/// The live region wraps the end of the buffer exactly once: a contiguous run
/// up to some position `w`, then a contiguous run restarting at offset 0 whose
/// end stays below the start of the first run.
pub open spec fn wrapped_at(rs: Seq<ByteRange>, w: int) -> bool {
    &&& 0 <= w < rs.len() - 1
    &&& contiguous(rs, 0, w + 1)
    &&& rs[w + 1].start == 0
    &&& contiguous(rs, w + 1, rs.len() as int)
    &&& rs[rs.len() - 1].end <= rs[0].start
}

pub open spec fn wrapped(rs: Seq<ByteRange>) -> bool {
    exists|w: int| #[trigger] wrapped_at(rs, w)
}

/// The ring topology of the pool: all ranges well formed, and the live region
/// is one contiguous run or wraps the end of the buffer exactly once.
pub open spec fn ring(rs: Seq<ByteRange>, size: u64) -> bool {
    &&& all_wf(rs, size)
    &&& (contiguous(rs, 0, rs.len() as int) || wrapped(rs))
}

/// Along a contiguous run, starts and ends grow monotonically: the end of an
/// earlier range never passes the start of a later one.
proof fn lemma_contiguous_mono(rs: Seq<ByteRange>, size: u64, lo: int, hi: int, a: int, b: int)
    requires
        all_wf(rs, size),
        contiguous(rs, lo, hi),
        0 <= lo <= a <= b < hi <= rs.len(),
    ensures
        rs[a].start <= rs[b].start,
        rs[a].end <= rs[b].end,
        a < b ==> rs[a].end <= rs[b].start,
    decreases b - a,
{
    if a < b {
        lemma_contiguous_mono(rs, size, lo, hi, a, b - 1);
        assert(rs[b].start == rs[b - 1].end);
    }
}

/// Live ranges never overlap within a buffer: any two distinct entries of a
/// ring are disjoint.
pub proof fn lemma_ring_ranges_disjoint(rs: Seq<ByteRange>, size: u64, j: int, k: int)
    requires
        ring(rs, size),
        0 <= j < k < rs.len(),
    ensures
        rs[j].disjoint(rs[k]),
{
    let n = rs.len() as int;
    if contiguous(rs, 0, n) {
        lemma_contiguous_mono(rs, size, 0, n, j, k);
    } else {
        let w = choose|w: int| #[trigger] wrapped_at(rs, w);
        assert(wrapped_at(rs, w));
        if k <= w {
            lemma_contiguous_mono(rs, size, 0, w + 1, j, k);
        } else if j >= w + 1 {
            lemma_contiguous_mono(rs, size, w + 1, n, j, k);
        } else {
            // `j` lies in the run before the wrap, `k` in the run after it:
            // `k`'s range ends at or below the start of the first run.
            lemma_contiguous_mono(rs, size, w + 1, n, k, n - 1);
            lemma_contiguous_mono(rs, size, 0, w + 1, 0, j);
            assert(rs[k].end <= rs[n - 1].end);
            assert(rs[n - 1].end <= rs[0].start);
            assert(rs[0].start <= rs[j].start);
        }
    }
}

/// Every live range of a ring starts and ends on the GPU copy alignment.
pub proof fn lemma_ring_ranges_aligned(rs: Seq<ByteRange>, size: u64, k: int)
    requires
        ring(rs, size),
        0 <= k < rs.len(),
    ensures
        rs[k].start % COPY_BUFFER_ALIGNMENT == 0,
        rs[k].end % COPY_BUFFER_ALIGNMENT == 0,
        rs[k].len() % (COPY_BUFFER_ALIGNMENT as int) == 0,
{
    assert(rs[k].wf(size));
}

/// No live range of a ring crosses the end of the buffer.
pub proof fn lemma_ring_ranges_inside(rs: Seq<ByteRange>, size: u64, k: int)
    requires
        ring(rs, size),
        0 <= k < rs.len(),
    ensures
        rs[k].start <= rs[k].end <= size,
{
    assert(rs[k].wf(size));
}

/// Dropping the oldest entries of a ring leaves a ring: FIFO eviction cannot
/// break the topology.
#[verifier::rlimit(50)]
pub proof fn lemma_ring_skip(rs: Seq<ByteRange>, size: u64, c: int)
    requires
        ring(rs, size),
        0 <= c <= rs.len(),
    ensures
        ring(rs.skip(c), size),
{
    let rt = rs.skip(c);
    let n = rs.len() as int;
    let m = rt.len() as int;
    assert forall|k: int| 0 <= k < m implies (#[trigger] rt[k]).wf(size) by {
        assert(rt[k] == rs[k + c]);
        assert(rs[k + c].wf(size));
    }
    if contiguous(rs, 0, n) {
        assert(contiguous(rt, 0, m)) by {
            assert forall|k: int| #![trigger rt[k]] 0 <= k < m - 1 implies rt[k + 1].start == rt[k].end by {
                assert(rt[k] == rs[k + c]);
                assert(rt[k + 1] == rs[k + c + 1]);
            }
        }
    } else {
        let w = choose|w: int| #[trigger] wrapped_at(rs, w);
        assert(wrapped_at(rs, w));
        if c <= w {
            // The wrap position survives the drop.
            let wt = w - c;
            assert(contiguous(rt, 0, wt + 1)) by {
                assert forall|k: int| #![trigger rt[k]] 0 <= k < wt implies rt[k + 1].start == rt[k].end by {
                    assert(rt[k] == rs[k + c]);
                    assert(rt[k + 1] == rs[k + c + 1]);
                }
            }
            assert(contiguous(rt, wt + 1, m)) by {
                assert forall|k: int| #![trigger rt[k]] wt + 1 <= k < m - 1 implies rt[k + 1].start == rt[k].end by {
                    assert(rt[k] == rs[k + c]);
                    assert(rt[k + 1] == rs[k + c + 1]);
                }
            }
            assert(rt[wt + 1] == rs[w + 1]);
            assert(rt[m - 1] == rs[n - 1]);
            assert(rt[0] == rs[c]);
            lemma_contiguous_mono(rs, size, 0, w + 1, 0, c);
            assert(rs[n - 1].end <= rs[0].start <= rs[c].start);
            assert(wrapped_at(rt, wt));
        } else {
            // Everything before and including the wrap is gone; what is left
            // is the contiguous run that restarted at offset 0.
            assert(contiguous(rt, 0, m)) by {
                assert forall|k: int| #![trigger rt[k]] 0 <= k < m - 1 implies rt[k + 1].start == rt[k].end by {
                    assert(rt[k] == rs[k + c]);
                    assert(rt[k + 1] == rs[k + c + 1]);
                }
            }
        }
    }
}

/// The gap the allocator uses next, exactly as the allocation algorithm
/// defines it: the whole buffer when nothing is live; the larger of the two
/// end gaps while the live region has not wrapped (ties favour the gap at the
/// end of the buffer); the single hole between tail and head once it has.
pub open spec fn spec_largest_gap(rs: Seq<ByteRange>, size: u64) -> ByteRange {
    if rs.len() == 0 {
        ByteRange { start: 0, end: size }
    } else {
        let s = rs[0].start;
        let e = rs[rs.len() - 1].end;
        if e > s {
            if size - e >= s {
                ByteRange { start: e, end: size }
            } else {
                ByteRange { start: 0, end: s }
            }
        } else {
            ByteRange { start: e, end: s }
        }
    }
}

/// How many entries FIFO eviction removes from the front before a gap of
/// `need` bytes opens on the selected side.
pub open spec fn evictions_for(
    entries: Seq<IndexEntry>,
    size: u64,
    vertices: bool,
    need: u64,
) -> int
    decreases entries.len(),
{
    if spec_largest_gap(ranges_of(entries, vertices), size).len() >= need {
        0int
    } else if entries.len() == 0 {
        0int
    } else {
        1int + evictions_for(entries.skip(1), size, vertices, need)
    }
}

/// FIFO eviction removes at most every entry.
pub proof fn lemma_evictions_bounds(entries: Seq<IndexEntry>, size: u64, vertices: bool, need: u64)
    ensures
        0 <= evictions_for(entries, size, vertices, need) <= entries.len(),
    decreases entries.len(),
{
    if spec_largest_gap(ranges_of(entries, vertices), size).len() >= need {
    } else if entries.len() == 0 {
    } else {
        lemma_evictions_bounds(entries.skip(1), size, vertices, need);
    }
}

proof fn lemma_ranges_of_skip(entries: Seq<IndexEntry>, vertices: bool, c: int)
    requires
        0 <= c <= entries.len(),
    ensures
        ranges_of(entries.skip(c), vertices) == ranges_of(entries, vertices).skip(c),
{
    assert(ranges_of(entries.skip(c), vertices) =~= ranges_of(entries, vertices).skip(c));
}

proof fn lemma_ranges_of_push(entries: Seq<IndexEntry>, vertices: bool, e: IndexEntry)
    ensures
        ranges_of(entries.push(e), vertices) == ranges_of(entries, vertices).push(
            e.range(vertices),
        ),
{
    assert(ranges_of(entries.push(e), vertices) =~= ranges_of(entries, vertices).push(
        e.range(vertices),
    ));
}

/// The gap of a ring lies inside the buffer and starts on the copy alignment.
pub proof fn lemma_gap_in_buffer(rs: Seq<ByteRange>, size: u64)
    requires
        ring(rs, size),
    ensures
        spec_largest_gap(rs, size).start <= spec_largest_gap(rs, size).end <= size,
        spec_largest_gap(rs, size).start % COPY_BUFFER_ALIGNMENT == 0,
{
    let n = rs.len() as int;
    if n == 0 {
    } else {
        let s = rs[0].start;
        let e = rs[n - 1].end;
        assert(rs[0].wf(size));
        assert(rs[n - 1].wf(size));
        if e > s {
        } else {
            if wrapped(rs) {
                let w = choose|w: int| #[trigger] wrapped_at(rs, w);
                assert(wrapped_at(rs, w));
            } else {
                lemma_contiguous_mono(rs, size, 0, n, 0, n - 1);
            }
        }
    }
}

/// Placing an allocation of `need` bytes at the start of the current gap
/// keeps the ring topology.
#[verifier::rlimit(50)]
proof fn lemma_gap_push(rs: Seq<ByteRange>, size: u64, need: u64)
    requires
        ring(rs, size),
        need % COPY_BUFFER_ALIGNMENT == 0,
        need <= spec_largest_gap(rs, size).len(),
    ensures
        ring(
            rs.push(
                ByteRange {
                    start: spec_largest_gap(rs, size).start,
                    end: (spec_largest_gap(rs, size).start + need) as u64,
                },
            ),
            size,
        ),
{
    let g = spec_largest_gap(rs, size);
    let r = ByteRange { start: g.start, end: (g.start + need) as u64 };
    let ps = rs.push(r);
    let n = rs.len() as int;
    lemma_gap_in_buffer(rs, size);
    assert(r.wf(size));
    assert forall|k: int| 0 <= k < n + 1 implies (#[trigger] ps[k]).wf(size) by {
        if k < n {
            assert(ps[k] == rs[k]);
        } else {
            assert(ps[k] == r);
        }
    }
    if n == 0 {
        assert(contiguous(ps, 0, 1));
    } else {
        let s = rs[0].start;
        let e = rs[n - 1].end;
        if e > s {
            // The live region has not wrapped: the topology must be one
            // contiguous run, because a wrapped one ends at or below its
            // start.
            assert(contiguous(rs, 0, n)) by {
                if wrapped(rs) {
                    let w = choose|w: int| #[trigger] wrapped_at(rs, w);
                    assert(wrapped_at(rs, w));
                }
            }
            if size - e >= s {
                // The allocation continues the run at its end.
                assert forall|k: int| #![trigger ps[k]] 0 <= k < n implies ps[k + 1].start == ps[k].end by {
                    if k < n - 1 {
                        assert(ps[k] == rs[k]);
                        assert(ps[k + 1] == rs[k + 1]);
                    } else {
                        assert(ps[n - 1] == rs[n - 1]);
                        assert(ps[n] == r);
                    }
                }
                assert(contiguous(ps, 0, n + 1));
            } else {
                // The allocation restarts at offset 0 and introduces the wrap.
                assert forall|k: int| #![trigger ps[k]] 0 <= k < n - 1 implies ps[k + 1].start == ps[k].end by {
                    assert(ps[k] == rs[k]);
                    assert(ps[k + 1] == rs[k + 1]);
                }
                assert(contiguous(ps, 0, n));
                assert(ps[n] == r);
                assert(ps[0] == rs[0]);
                assert(wrapped_at(ps, n - 1));
            }
        } else {
            if contiguous(rs, 0, n) {
                // Degenerate: the run's end equals its start, so the gap is
                // empty and the allocation is empty too.
                lemma_contiguous_mono(rs, size, 0, n, 0, n - 1);
                assert forall|k: int| #![trigger ps[k]] 0 <= k < n implies ps[k + 1].start == ps[k].end by {
                    if k < n - 1 {
                        assert(ps[k] == rs[k]);
                        assert(ps[k + 1] == rs[k + 1]);
                    } else {
                        assert(ps[n - 1] == rs[n - 1]);
                        assert(ps[n] == r);
                    }
                }
                assert(contiguous(ps, 0, n + 1));
            } else {
                // Already wrapped: the allocation extends the run that
                // restarted at offset 0, staying below the head.
                let w = choose|w: int| #[trigger] wrapped_at(rs, w);
                assert(wrapped_at(rs, w));
                assert forall|k: int| #![trigger ps[k]] 0 <= k < w implies ps[k + 1].start == ps[k].end by {
                    assert(ps[k] == rs[k]);
                    assert(ps[k + 1] == rs[k + 1]);
                }
                assert(contiguous(ps, 0, w + 1));
                assert forall|k: int| #![trigger ps[k]] w + 1 <= k < n implies ps[k + 1].start == ps[k].end by {
                    if k < n - 1 {
                        assert(ps[k] == rs[k]);
                        assert(ps[k + 1] == rs[k + 1]);
                    } else {
                        assert(ps[n - 1] == rs[n - 1]);
                        assert(ps[n] == r);
                    }
                }
                assert(contiguous(ps, w + 1, n + 1));
                assert(ps[w + 1] == rs[w + 1]);
                assert(ps[n] == r);
                assert(ps[0] == rs[0]);
                assert(wrapped_at(ps, w));
            }
        }
    }
}

/// A buffer handle paired with its size in bytes.
pub struct BackingBufferDescriptor<B>(pub B, pub u64);

/// The single capability the pool needs from a GPU queue: write bytes into a
/// buffer at a byte offset. The renderer implements it for its queue type;
/// offsets handed over by the pool always lie inside the buffer.
pub trait Queue<B> {
    fn write_buffer(&self, buffer: &B, offset: u64, data: &Vec<u8>);
}

/// One fixed GPU buffer managed by the pool.
struct BackingBuffer<B> {
    /// The buffer handle used for storage.
    inner: B,
    /// The size of the `inner` buffer in bytes.
    inner_size: u64,
}

impl<B> BackingBuffer<B> {
    fn new(inner: B, inner_size: u64) -> (b: BackingBuffer<B>)
        ensures
            b.inner == inner,
            b.inner_size == inner_size,
    {
        BackingBuffer { inner, inner_size }
    }

    /// The allocator's next gap on the selected side; returns exactly
    /// `spec_largest_gap` over the live ranges.
    fn find_largest_gap(&self, index: &VecDeque<IndexEntry>, vertices: bool) -> (gap: ByteRange)
        requires
            ring(ranges_of(index@, vertices), self.inner_size),
        ensures
            gap == spec_largest_gap(ranges_of(index@, vertices), self.inner_size),
    {
        let n = index.len();
        if n == 0 {
            ByteRange { start: 0, end: self.inner_size }
        } else {
            let first = &index[0];
            let last = &index[n - 1];
            let start = if vertices {
                first.buffer_vertices.start
            } else {
                first.buffer_indices.start
            };
            let end = if vertices {
                last.buffer_vertices.end
            } else {
                last.buffer_indices.end
            };
            proof {
                let rs = ranges_of(index@, vertices);
                assert(rs[0] == index@[0].range(vertices));
                assert(rs[n - 1] == index@[n - 1].range(vertices));
                assert(rs[0].wf(self.inner_size));
                assert(rs[n - 1].wf(self.inner_size));
            }
            if end > start {
                // Not wrapped yet: a gap at each end of the buffer; ties
                // favour the one at the end.
                let gap_from_start = ByteRange { start: 0, end: start };
                let gap_to_end = ByteRange { start: end, end: self.inner_size };
                if gap_to_end.end - gap_to_end.start >= gap_from_start.end - gap_from_start.start {
                    gap_to_end
                } else {
                    gap_from_start
                }
            } else {
                // Already wrapped: the single hole between tail and head.
                ByteRange { start: end, end: start }
            }
        }
    }

    /// Returns a range of `new_data` bytes at the start of the current gap on
    /// the selected side, evicting oldest entries from the front until the
    /// gap is large enough. Eviction frees the evicted entries' ranges in
    /// both buffers at once.
    #[verifier::rlimit(50)]
    fn make_room(&self, new_data: u64, index: &mut VecDeque<IndexEntry>, vertices: bool) -> (r:
        ByteRange)
        requires
            new_data <= self.inner_size,
            new_data % COPY_BUFFER_ALIGNMENT == 0,
            ring(ranges_of(old(index)@, vertices), self.inner_size),
        ensures
            final(index)@ == old(index)@.skip(
                evictions_for(old(index)@, self.inner_size, vertices, new_data),
            ),
            r.start == spec_largest_gap(ranges_of(final(index)@, vertices), self.inner_size).start,
            r.end == r.start + new_data,
            ring(ranges_of(final(index)@, vertices).push(r), self.inner_size),
    {
        let ghost orig = index@;
        let ghost mut popped: int = 0;
        let mut available_gap = self.find_largest_gap(index, vertices);
        proof {
            assert(orig.skip(0) =~= orig);
            lemma_gap_in_buffer(ranges_of(index@, vertices), self.inner_size);
        }
        while new_data > available_gap.end - available_gap.start
            invariant
                new_data <= self.inner_size,
                new_data % COPY_BUFFER_ALIGNMENT == 0,
                ring(ranges_of(index@, vertices), self.inner_size),
                0 <= popped <= orig.len(),
                index@ == orig.skip(popped),
                available_gap == spec_largest_gap(ranges_of(index@, vertices), self.inner_size),
                available_gap.start <= available_gap.end <= self.inner_size,
                evictions_for(orig, self.inner_size, vertices, new_data) == popped + evictions_for(
                    index@,
                    self.inner_size,
                    vertices,
                    new_data,
                ),
            decreases orig.len() - popped,
        {
            // An empty pool exposes the whole buffer, which `new_data` fits
            // by the precondition; so there is still an entry to evict.
            proof {
                if index@.len() == 0 {
                    assert(ranges_of(index@, vertices).len() == 0);
                }
                assert(index@.len() > 0);
            }
            let ghost before = index@;
            let evicted = index.pop_front();
            proof {
                assert(index@ =~= before.skip(1));
                lemma_ranges_of_skip(before, vertices, 1);
                lemma_ring_skip(ranges_of(before, vertices), self.inner_size, 1);
                assert(index@ =~= orig.skip(popped + 1));
                popped = popped + 1;
            }
            available_gap = self.find_largest_gap(index, vertices);
            proof {
                lemma_gap_in_buffer(ranges_of(index@, vertices), self.inner_size);
            }
        }
        proof {
            assert(evictions_for(index@, self.inner_size, vertices, new_data) == 0);
        }
        let r = ByteRange { start: available_gap.start, end: available_gap.start + new_data };
        proof {
            lemma_gap_push(ranges_of(index@, vertices), self.inner_size, new_data);
        }
        r
    }
}

proof fn lemma_skip_push_commute(rs: Seq<ByteRange>, r: ByteRange, k: int)
    requires
        0 <= k <= rs.len(),
    ensures
        rs.push(r).skip(k) == rs.skip(k).push(r),
{
    assert(rs.push(r).skip(k) =~= rs.skip(k).push(r));
}

/// Errors of the geometry pool.
#[derive(Clone, Copy, PartialEq, Eq, Structural, Debug)]
pub enum PoolError {
    /// The geometry is larger than a backing buffer; callers must size the
    /// backing buffers adequately.
    OverSized,
}

/// Relies on bytemuck::cast_slice: the bytes of a slice of plain-old-data
/// values, in memory order, `size_of` bytes per element. Returns the first
/// `len` of those bytes; the cast itself never fails for a byte target.
#[verifier::external_body]
fn pod_bytes_prefix<T: bytemuck::Pod>(data: &Vec<T>, len: u64) -> (r: Vec<u8>)
    requires
        len <= data@.len() * vstd::layout::size_of::<T>() as int,
    ensures
        r@.len() == len,
{
    let bytes: &[u8] = bytemuck::cast_slice(data.as_slice());
    bytes[0..len as usize].to_vec()
}

/// The ring-buffer geometry pool: byte ranges for per-tile geometry are
/// allocated in lockstep in a vertex and an index backing buffer, oldest
/// entries are evicted first, and uploads go through the `Queue` capability.
///
/// One deque describes both buffers: each entry owns one range in each, and
/// FIFO eviction frees the two ranges atomically.
#[verifier::reject_recursive_types(Q)]
#[verifier::reject_recursive_types(B)]
#[verifier::reject_recursive_types(V)]
#[verifier::reject_recursive_types(I)]
pub struct BufferPool<Q, B, V, I> {
    vertices: BackingBuffer<B>,
    indices: BackingBuffer<B>,
    index: VecDeque<IndexEntry>,
    phantom_v: core::marker::PhantomData<V>,
    phantom_i: core::marker::PhantomData<I>,
    phantom_q: core::marker::PhantomData<Q>,
}

/// The deque the allocation algorithm leaves behind: evict until the vertex
/// bytes fit, reserve at the gap's start, evict until the index bytes fit,
/// reserve again, then push the new entry at the back.
pub open spec fn spec_entries_after_allocate(
    entries: Seq<IndexEntry>,
    vertex_size: u64,
    index_size: u64,
    vertices_bytes: u64,
    indices_bytes: u64,
    id: u32,
    coords: TileCoords,
    indices_stride: u64,
    usable_indices: u32,
) -> Seq<IndexEntry> {
    let kept_v = entries.skip(evictions_for(entries, vertex_size, true, vertices_bytes));
    let v_start = spec_largest_gap(ranges_of(kept_v, true), vertex_size).start;
    let kept = kept_v.skip(evictions_for(kept_v, index_size, false, indices_bytes));
    let i_start = spec_largest_gap(ranges_of(kept, false), index_size).start;
    kept.push(
        IndexEntry {
            id,
            coords,
            indices_stride,
            buffer_vertices: ByteRange {
                start: v_start,
                end: (v_start + vertices_bytes) as u64,
            },
            buffer_indices: ByteRange { start: i_start, end: (i_start + indices_bytes) as u64 },
            usable_indices,
        },
    )
}

impl<Q: Queue<B>, B, V: bytemuck::Pod, I: bytemuck::Pod> BufferPool<Q, B, V, I> {
    /// The live allocations, oldest first.
    pub closed spec fn entries(&self) -> Seq<IndexEntry> {
        self.index@
    }

    /// Size in bytes of the selected backing buffer.
    pub closed spec fn buffer_size(&self, vertices: bool) -> u64 {
        if vertices {
            self.vertices.inner_size
        } else {
            self.indices.inner_size
        }
    }

    /// The handle of the selected backing buffer.
    pub closed spec fn buffer_handle(&self, vertices: bool) -> B {
        if vertices {
            self.vertices.inner
        } else {
            self.indices.inner
        }
    }

    /// The pool invariant: in each backing buffer independently, the live
    /// ranges of the deque satisfy the ring topology — aligned, inside the
    /// buffer, one contiguous run or a single wrap around the end.
    pub open spec fn wf(&self) -> bool {
        &&& ring(ranges_of(self.entries(), true), self.buffer_size(true))
        &&& ring(ranges_of(self.entries(), false), self.buffer_size(false))
    }

    /// The size of the current largest gap in the selected buffer, as the
    /// allocation algorithm sees it.
    pub open spec fn spec_available_space(&self, vertices: bool) -> int {
        spec_largest_gap(ranges_of(self.entries(), vertices), self.buffer_size(vertices)).len()
    }

    /// Constructs an empty pool over the two fixed backing buffers.
    pub fn new(
        vertices: BackingBufferDescriptor<B>,
        indices: BackingBufferDescriptor<B>,
    ) -> (pool: Self)
        ensures
            pool.wf(),
            pool.entries() == Seq::<IndexEntry>::empty(),
            pool.buffer_size(true) == vertices.1,
            pool.buffer_size(false) == indices.1,
            pool.buffer_handle(true) == vertices.0,
            pool.buffer_handle(false) == indices.0,
    {
        let pool = BufferPool {
            vertices: BackingBuffer::new(vertices.0, vertices.1),
            indices: BackingBuffer::new(indices.0, indices.1),
            index: VecDeque::new(),
            phantom_v: core::marker::PhantomData,
            phantom_i: core::marker::PhantomData,
            phantom_q: core::marker::PhantomData,
        };
        proof {
            assert(pool.entries() =~= Seq::<IndexEntry>::empty());
        }
        pool
    }

    /// The vertex backing buffer's handle.
    pub fn vertices(&self) -> (b: &B)
        ensures
            *b == self.buffer_handle(true),
    {
        &self.vertices.inner
    }

    /// The index backing buffer's handle.
    pub fn indices(&self) -> (b: &B)
        ensures
            *b == self.buffer_handle(false),
    {
        &self.indices.inner
    }

    /// The size of the current largest free gap in the selected backing
    /// buffer, as computed by the gap search of the allocator.
    pub fn available_space(&self, vertices: bool) -> (space: u64)
        requires
            self.wf(),
        ensures
            space == self.spec_available_space(vertices),
    {
        proof {
            lemma_gap_in_buffer(
                ranges_of(self.entries(), vertices),
                self.buffer_size(vertices),
            );
        }
        let gap = if vertices {
            self.vertices.find_largest_gap(&self.index, true)
        } else {
            self.indices.find_largest_gap(&self.index, false)
        };
        gap.end - gap.start
    }

    /// The byte count of `elements` elements of `stride` bytes, and the byte
    /// count of the `usable_elements` useful ones rounded up to the copy
    /// alignment.
    fn align(stride: u64, elements: u64, usable_elements: u64) -> (r: (u64, u64))
        requires
            usable_elements <= elements,
            elements * stride <= u64::MAX,
            spec_align_up(usable_elements * stride) <= u64::MAX,
        ensures
            r.0 == elements * stride,
            r.1 == spec_align_up(usable_elements * stride),
    {
        proof {
            assert(usable_elements * stride <= elements * stride) by (nonlinear_arith)
                requires
                    usable_elements <= elements,
            ;
        }
        let bytes = elements * stride;
        let usable_bytes = usable_elements * stride;
        let align = COPY_BUFFER_ALIGNMENT;
        let padding = (align - usable_bytes % align) % align;
        (bytes, usable_bytes + padding)
    }

    /// Uploads `over_aligned` through the queue and records the allocation at
    /// the back of the deque, evicting oldest entries as needed. Fails with
    /// `OverSized`, leaving the pool unchanged, exactly when the vertex or
    /// index bytes exceed their backing buffer; once the sizes fit, room is
    /// always made.
    #[verifier::rlimit(50)]
    pub fn allocate_geometry(
        &mut self,
        queue: &Q,
        id: u32,
        coords: TileCoords,
        over_aligned: &OverAlignedVertexBuffer<V, I>,
    ) -> (result: Result<(), PoolError>)
        requires
            old(self).wf(),
            over_aligned.well_formed(),
        ensures
            final(self).wf(),
            final(self).buffer_size(true) == old(self).buffer_size(true),
            final(self).buffer_size(false) == old(self).buffer_size(false),
            final(self).buffer_handle(true) == old(self).buffer_handle(true),
            final(self).buffer_handle(false) == old(self).buffer_handle(false),
            result is Err <==> (over_aligned.vertices_bytes() > old(self).buffer_size(true)
                || over_aligned.indices_bytes() > old(self).buffer_size(false)),
            result is Err ==> *final(self) == *old(self) && result == Result::<(), PoolError>::Err(
                PoolError::OverSized,
            ),
            result is Ok ==> final(self).entries() == spec_entries_after_allocate(
                old(self).entries(),
                old(self).buffer_size(true),
                old(self).buffer_size(false),
                over_aligned.vertices_bytes() as u64,
                over_aligned.indices_bytes() as u64,
                id,
                coords,
                vstd::layout::size_of::<I>() as u64,
                over_aligned.usable_indices,
            ),
    {
        let vertices_stride = core::mem::size_of::<V>() as u64;
        let indices_stride = core::mem::size_of::<I>() as u64;

        let vertex_count = over_aligned.buffer.vertices.len() as u64;
        let index_count = over_aligned.buffer.indices.len() as u64;

        let (vertices_bytes, aligned_vertices_bytes) = Self::align(
            vertices_stride,
            vertex_count,
            vertex_count,
        );
        let (indices_bytes, aligned_indices_bytes) = Self::align(
            indices_stride,
            index_count,
            over_aligned.usable_indices as u64,
        );

        if vertices_bytes > self.vertices.inner_size || indices_bytes > self.indices.inner_size {
            return Err(PoolError::OverSized);
        }

        let ghost orig = self.index@;
        let buffer_vertices = self.vertices.make_room(vertices_bytes, &mut self.index, true);
        proof {
            let ghost k1 = evictions_for(orig, self.vertices.inner_size, true, vertices_bytes);
            lemma_evictions_bounds(orig, self.vertices.inner_size, true, vertices_bytes);
            lemma_ranges_of_skip(orig, false, k1);
            lemma_ring_skip(ranges_of(orig, false), self.indices.inner_size, k1);
        }
        let ghost kept_v = self.index@;
        let buffer_indices = self.indices.make_room(indices_bytes, &mut self.index, false);
        proof {
            let ghost k2 = evictions_for(kept_v, self.indices.inner_size, false, indices_bytes);
            lemma_evictions_bounds(kept_v, self.indices.inner_size, false, indices_bytes);
            lemma_ranges_of_skip(kept_v, true, k2);
            lemma_skip_push_commute(ranges_of(kept_v, true), buffer_vertices, k2);
            lemma_ring_skip(
                ranges_of(kept_v, true).push(buffer_vertices),
                self.vertices.inner_size,
                k2,
            );
        }

        let entry = IndexEntry {
            id,
            coords,
            indices_stride,
            buffer_vertices,
            buffer_indices,
            usable_indices: over_aligned.usable_indices,
        };

        let vertex_data = pod_bytes_prefix(&over_aligned.buffer.vertices, aligned_vertices_bytes);
        queue.write_buffer(&self.vertices.inner, entry.buffer_vertices.start, &vertex_data);
        let index_data = pod_bytes_prefix(&over_aligned.buffer.indices, aligned_indices_bytes);
        queue.write_buffer(&self.indices.inner, entry.buffer_indices.start, &index_data);

        let ghost kept = self.index@;
        self.index.push_back(entry);
        proof {
            assert(self.index@ =~= kept.push(entry));
            lemma_ranges_of_push(kept, true, entry);
            lemma_ranges_of_push(kept, false, entry);
        }
        Ok(())
    }

    /// An insertion-ordered snapshot of the live allocations, oldest first,
    /// for draw submission.
    pub fn available_vertices(&self) -> (entries: Vec<IndexEntry>)
        ensures
            entries@ == self.entries(),
    {
        let mut out: Vec<IndexEntry> = Vec::new();
        let n = self.index.len();
        let mut i: usize = 0;
        while i < n
            invariant
                n == self.index@.len(),
                0 <= i <= n,
                out@ == self.index@.take(i as int),
            decreases n - i,
        {
            let e = self.index[i];
            out.push(e);
            proof {
                assert(out@ =~= self.index@.take(i as int + 1));
            }
            i = i + 1;
        }
        proof {
            assert(self.index@.take(n as int) =~= self.index@);
        }
        out
    }

    /// Law: live ranges never overlap within a buffer — any two distinct
    /// entries of a well-formed pool hold disjoint ranges on each side.
    pub proof fn lemma_live_ranges_disjoint(&self, vertices: bool, j: int, k: int)
        requires
            self.wf(),
            0 <= j < k < self.entries().len(),
        ensures
            self.entries()[j].range(vertices).disjoint(self.entries()[k].range(vertices)),
    {
        let rs = ranges_of(self.entries(), vertices);
        lemma_ring_ranges_disjoint(rs, self.buffer_size(vertices), j, k);
        assert(rs[j] == self.entries()[j].range(vertices));
        assert(rs[k] == self.entries()[k].range(vertices));
    }

    /// Law: every live range's start and length are multiples of the GPU
    /// copy alignment.
    pub proof fn lemma_live_ranges_aligned(&self, vertices: bool, k: int)
        requires
            self.wf(),
            0 <= k < self.entries().len(),
        ensures
            self.entries()[k].range(vertices).start % COPY_BUFFER_ALIGNMENT == 0,
            self.entries()[k].range(vertices).len() % (COPY_BUFFER_ALIGNMENT as int) == 0,
    {
        let rs = ranges_of(self.entries(), vertices);
        lemma_ring_ranges_aligned(rs, self.buffer_size(vertices), k);
        assert(rs[k] == self.entries()[k].range(vertices));
    }

    /// Law: no live range crosses the end of its backing buffer.
    pub proof fn lemma_live_ranges_inside(&self, vertices: bool, k: int)
        requires
            self.wf(),
            0 <= k < self.entries().len(),
        ensures
            self.entries()[k].range(vertices).start <= self.entries()[k].range(vertices).end
                <= self.buffer_size(vertices),
    {
        let rs = ranges_of(self.entries(), vertices);
        lemma_ring_ranges_inside(rs, self.buffer_size(vertices), k);
        assert(rs[k] == self.entries()[k].range(vertices));
    }
}

} // verus!
