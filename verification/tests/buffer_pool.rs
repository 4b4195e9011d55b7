use std::cell::RefCell;

use lyon::tessellation::VertexBuffers;
use maplibre::buffer_pool::{
    BackingBufferDescriptor, BufferPool, PoolError, Queue, COPY_BUFFER_ALIGNMENT,
};
use maplibre::coords::TileCoords;
use maplibre::geometry::OverAlignedVertexBuffer;

#[derive(Debug)]
struct TestBuffer {
    size: u64,
}

struct TestQueue;

impl Queue<TestBuffer> for TestQueue {
    fn write_buffer(&self, buffer: &TestBuffer, offset: u64, data: &Vec<u8>) {
        if offset + data.len() as u64 > buffer.size {
            panic!("write out of bounds");
        }
    }
}

type TestVertex = [u8; 24];

fn create_48byte() -> Vec<TestVertex> {
    vec![TestVertex::default(), TestVertex::default()]
}

fn create_24byte() -> Vec<TestVertex> {
    vec![TestVertex::default()]
}

fn geometry(vertices: Vec<TestVertex>, indices: Vec<u32>) -> OverAlignedVertexBuffer<TestVertex, u32> {
    let usable = indices.len() as u32;
    OverAlignedVertexBuffer::from_buffers(VertexBuffers { vertices, indices }, usable)
}

fn new_pool(
    vertex_size: u64,
    index_size: u64,
) -> BufferPool<TestQueue, TestBuffer, TestVertex, u32> {
    BufferPool::new(
        BackingBufferDescriptor(TestBuffer { size: vertex_size }, vertex_size),
        BackingBufferDescriptor(TestBuffer { size: index_size }, index_size),
    )
}

#[test]
fn test_allocate() {
    let mut pool = new_pool(128, 1024);
    let queue = TestQueue;

    let data48bytes = geometry(create_48byte(), vec![1, 2, 3, 4]);
    let data24bytes = geometry(create_24byte(), vec![1, 2, 3, 4]);

    for _ in 0..2 {
        pool.allocate_geometry(&queue, 0, TileCoords::new(0, 0, 0), &data48bytes)
            .expect("fits");
    }
    assert_eq!(128 - 2 * 48, pool.available_space(true));

    pool.allocate_geometry(&queue, 1, TileCoords::new(0, 0, 0), &data24bytes)
        .expect("fits");
    assert_eq!(128 - 2 * 48 - 24, pool.available_space(true));

    pool.allocate_geometry(&queue, 1, TileCoords::new(0, 0, 0), &data24bytes)
        .expect("fits");
    // appended now at the beginning
    assert_eq!(24, pool.available_space(true));

    pool.allocate_geometry(&queue, 1, TileCoords::new(0, 0, 0), &data24bytes)
        .expect("fits");
    assert_eq!(0, pool.available_space(true));

    pool.allocate_geometry(&queue, 1, TileCoords::new(0, 0, 0), &data24bytes)
        .expect("fits");
    assert_eq!(24, pool.available_space(true));

    pool.allocate_geometry(&queue, 1, TileCoords::new(0, 0, 0), &data24bytes)
        .expect("fits");
    assert_eq!(0, pool.available_space(true));
}

#[test]
fn empty_pool_exposes_whole_buffers() {
    let pool = new_pool(128, 1024);
    assert_eq!(128, pool.available_space(true));
    assert_eq!(1024, pool.available_space(false));
    assert!(pool.available_vertices().is_empty());
}

#[test]
fn single_fit_allocation() {
    // Two allocations of 48 useful vertex bytes in a 128-byte buffer.
    let mut pool = new_pool(128, 1024);
    let queue = TestQueue;
    let data = geometry(create_48byte(), vec![1, 2, 3, 4]);
    pool.allocate_geometry(&queue, 0, TileCoords::new(0, 0, 0), &data).expect("fits");
    pool.allocate_geometry(&queue, 1, TileCoords::new(0, 0, 0), &data).expect("fits");
    assert_eq!(128 - 96, pool.available_space(true));
}

#[test]
fn wrap_around_sequence() {
    // Vertex byte counts 48, 48, 24, 24, 24, 24, 24 in a 128-byte buffer.
    let mut pool = new_pool(128, 4096);
    let queue = TestQueue;
    let sizes: [usize; 7] = [2, 2, 1, 1, 1, 1, 1]; // x24 bytes each
    let expected: [u64; 7] = [80, 32, 8, 24, 0, 24, 0];
    for (id, (count, want)) in sizes.iter().zip(expected.iter()).enumerate() {
        let data = geometry(vec![TestVertex::default(); *count], vec![1, 2, 3, 4]);
        pool.allocate_geometry(&queue, id as u32, TileCoords::new(0, 0, 0), &data)
            .expect("fits");
        assert_eq!(*want, pool.available_space(true), "after allocation {}", id);
    }
}

#[test]
fn oversized_geometry_fails_and_leaves_pool_unchanged() {
    let mut pool = new_pool(128, 1024);
    let queue = TestQueue;
    let small = geometry(create_24byte(), vec![1, 2, 3, 4]);
    pool.allocate_geometry(&queue, 7, TileCoords::new(1, 2, 3), &small).expect("fits");
    let before_entries = pool.available_vertices().len();
    let before_space = pool.available_space(true);

    // 200 vertex bytes cannot fit a 128-byte buffer (9 x 24 = 216 > 128).
    let big = geometry(vec![TestVertex::default(); 9], vec![1, 2, 3, 4]);
    let result = pool.allocate_geometry(&queue, 8, TileCoords::new(0, 0, 0), &big);
    assert_eq!(result, Err(PoolError::OverSized));
    assert_eq!(before_entries, pool.available_vertices().len());
    assert_eq!(before_space, pool.available_space(true));
}

#[test]
fn fifo_eviction_keeps_most_recent() {
    // Six 24-byte entries exceed 128 bytes: the earliest inserted are gone and
    // the most recent survive, in insertion order.
    let mut pool = new_pool(128, 4096);
    let queue = TestQueue;
    for id in 0..6u32 {
        let data = geometry(create_24byte(), vec![1, 2, 3, 4]);
        pool.allocate_geometry(&queue, id, TileCoords::new(id, 0, 0), &data).expect("fits");
    }
    let entries = pool.available_vertices();
    let ids: Vec<u32> = entries.iter().map(|e| e.id).collect();
    // 128 / 24 = 5 fit; with alignment and the gap rules the oldest was evicted.
    assert!(ids.len() < 6);
    let oldest_surviving = ids[0];
    assert!(oldest_surviving > 0, "the first entry must have been evicted");
    for window in ids.windows(2) {
        assert_eq!(window[0] + 1, window[1], "insertion order is kept");
    }
    assert_eq!(*ids.last().unwrap(), 5, "the newest entry is at the back");
}

#[test]
fn live_ranges_stay_aligned_disjoint_and_inside() {
    // Drive the pool through wrap-around and eviction, then check the stated
    // invariants concretely on every live range in both buffers.
    let mut pool = new_pool(128, 256);
    let queue = TestQueue;
    for id in 0..10u32 {
        let count = if id % 3 == 0 { 2 } else { 1 };
        let data = geometry(vec![TestVertex::default(); count], vec![1, 2, 3, 4]);
        pool.allocate_geometry(&queue, id, TileCoords::new(id, id, 0), &data).expect("fits");

        let entries = pool.available_vertices();
        for (side, size) in [(true, 128u64), (false, 256u64)] {
            let ranges: Vec<(u64, u64)> = entries
                .iter()
                .map(|e| {
                    let r = if side { e.vertices_buffer_range() } else { e.indices_buffer_range() };
                    (r.start, r.end)
                })
                .collect();
            for &(s, e) in &ranges {
                assert!(s <= e && e <= size, "no live range crosses the end");
                assert_eq!(0, s % COPY_BUFFER_ALIGNMENT, "start is aligned");
                assert_eq!(0, (e - s) % COPY_BUFFER_ALIGNMENT, "length is aligned");
            }
            for (a, &(s1, e1)) in ranges.iter().enumerate() {
                for &(s2, e2) in &ranges[a + 1..] {
                    assert!(e1 <= s2 || e2 <= s1, "live ranges never overlap");
                }
            }
            // Ring topology: one contiguous run, or two runs with a single
            // wrap back to offset 0 whose end stays below the head.
            let breaks: Vec<usize> =
                (0..ranges.len().saturating_sub(1)).filter(|&k| ranges[k + 1].0 != ranges[k].1).collect();
            assert!(breaks.len() <= 1, "at most one wrap");
            if let Some(&w) = breaks.first() {
                assert_eq!(0, ranges[w + 1].0, "the wrapped run restarts at offset 0");
                assert!(ranges.last().unwrap().1 <= ranges[0].0, "the tail stays below the head");
            }
        }
    }
}

struct RecordingQueue {
    writes: RefCell<Vec<(u64, Vec<u8>)>>,
}

impl Queue<TestBuffer> for RecordingQueue {
    fn write_buffer(&self, buffer: &TestBuffer, offset: u64, data: &Vec<u8>) {
        assert!(offset + data.len() as u64 <= buffer.size);
        self.writes.borrow_mut().push((offset, data.clone()));
    }
}

#[test]
fn uploads_carry_the_geometry_bytes() {
    // The vertex upload must hold the vertices' raw bytes, and the index
    // upload only the aligned useful prefix.
    let mut pool: BufferPool<RecordingQueue, TestBuffer, TestVertex, u32> = BufferPool::new(
        BackingBufferDescriptor(TestBuffer { size: 128 }, 128),
        BackingBufferDescriptor(TestBuffer { size: 1024 }, 1024),
    );
    let queue = RecordingQueue { writes: RefCell::new(Vec::new()) };

    let mut vertex = [0u8; 24];
    for (i, b) in vertex.iter_mut().enumerate() {
        *b = i as u8 + 1;
    }
    // Four indices stored, only two useful: eight bytes are uploaded.
    let data = OverAlignedVertexBuffer::from_buffers(
        VertexBuffers { vertices: vec![vertex], indices: vec![0x01020304, 0x05060708, 0x99, 0xAA] },
        2,
    );
    pool.allocate_geometry(&queue, 0, TileCoords::new(0, 0, 0), &data).expect("fits");

    let writes = queue.writes.borrow();
    assert_eq!(2, writes.len());
    let (v_offset, v_data) = &writes[0];
    assert_eq!(0, *v_offset);
    assert_eq!(vertex.to_vec(), *v_data);
    let (i_offset, i_data) = &writes[1];
    assert_eq!(0, *i_offset);
    assert_eq!(8, i_data.len());
    let mut expected = 0x01020304u32.to_le_bytes().to_vec();
    expected.extend_from_slice(&0x05060708u32.to_le_bytes());
    assert_eq!(expected, *i_data);
}
