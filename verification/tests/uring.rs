//! Batches of reads through a ring, with the kernel's side played in memory.
use nodedb_data::uring::{
    round_up_read, tier_of, Action, Assigned, BufSource, BufferPool, Completion, Flushed,
    PlannedRead, Priority, ReadLoop, ReadState, Tier, MAX_STALLED_WAITS,
};

const QUEUE_DEPTH: usize = 64;
const ALIGNMENT: usize = 4096;

/// A ring whose submission queue holds `depth` entries. It finishes what it was
/// given when it is asked for completions.
struct Kernel {
    depth: usize,
    queued: Vec<usize>,
    running: Vec<usize>,
    largest: usize,
}

impl Kernel {
    fn push(&mut self, read: usize) -> bool {
        if self.queued.len() >= self.depth {
            return false;
        }
        self.queued.push(read);
        self.largest = self.largest.max(self.queued.len() + self.running.len());
        true
    }

    fn submit(&mut self) -> usize {
        let n = self.queued.len();
        self.running.append(&mut self.queued);
        n
    }

    fn reap(&mut self) -> Vec<Completion> {
        self.running.drain(..).map(|index| Completion { index, failed: false }).collect()
    }
}

struct Reader {
    pool: BufferPool,
    buffers: Vec<Vec<u8>>,
    kernel: Kernel,
}

impl Reader {
    fn with_config(depth: usize, pool_size: usize, buf_size: usize) -> Reader {
        Reader {
            pool: BufferPool::with_config(depth, pool_size, buf_size).expect("a pool"),
            buffers: vec![vec![0; buf_size]; pool_size],
            kernel: Kernel { depth, queued: Vec::new(), running: Vec::new(), largest: 0 },
        }
    }

    /// The contents of files; none for a file that does not exist.
    fn read_files(&mut self, files: &[Option<Vec<u8>>]) -> Vec<Vec<u8>> {
        let mut oversized: Vec<Vec<u8>> = Vec::new();
        let mut reads = Vec::new();
        for file in files {
            let size = file.as_ref().map(|f| f.len());
            reads.push(match self.pool.assign(size) {
                Assigned::Skip => PlannedRead { size: 0, source: BufSource::Nowhere },
                Assigned::Pool(slot) => {
                    PlannedRead { size: size.unwrap(), source: BufSource::Pool(slot) }
                }
                Assigned::Allocate(n) => {
                    oversized.push(vec![0; n]);
                    PlannedRead { size: n, source: BufSource::Oversized(oversized.len() - 1) }
                }
            });
        }
        let mut batch = ReadLoop::start(reads, self.pool.depth());
        loop {
            match batch.action() {
                Action::Finish => break,
                Action::Flush => {
                    let first = Some(self.kernel.submit());
                    let after = self.complete(&batch, files, &mut oversized);
                    batch.on_flushed(&Flushed { first, between: Vec::new(), second: None, after });
                }
                Action::Wait(_) => {
                    let taken = Some(self.kernel.submit());
                    let done = self.complete(&batch, files, &mut oversized);
                    batch.wait_for_completions(taken, &done);
                }
                Action::Push(i) => {
                    let pushed = self.kernel.push(i);
                    batch.on_pushed(pushed);
                }
            }
        }
        let filled = self.pool.finish(&batch.reads, &batch.states);
        batch
            .reads
            .iter()
            .zip(filled)
            .map(|(r, filled)| match r.source {
                BufSource::Pool(slot) if filled => self.buffers[slot][..r.size].to_vec(),
                BufSource::Oversized(i) if filled => oversized[i][..r.size].to_vec(),
                _ => Vec::new(),
            })
            .collect()
    }

    fn complete(
        &mut self,
        batch: &ReadLoop,
        files: &[Option<Vec<u8>>],
        oversized: &mut [Vec<u8>],
    ) -> Vec<Completion> {
        let done = self.kernel.reap();
        for c in &done {
            let planned = &batch.reads[c.index];
            let buffer = match planned.source {
                BufSource::Pool(slot) => &mut self.buffers[slot],
                BufSource::Oversized(i) => &mut oversized[i],
                BufSource::Nowhere => panic!("a read without a buffer was queued"),
            };
            let file = files[c.index].as_ref().expect("an open file");
            let wanted = round_up_read(planned.size, ALIGNMENT, buffer.len());
            let n = wanted.min(file.len());
            buffer[..n].copy_from_slice(&file[..n]);
        }
        done
    }
}

fn test_file(size: usize) -> Option<Vec<u8>> {
    Some((0..size).map(|i| (i % 256) as u8).collect())
}

fn marked_file(size: usize, mark: u8) -> Option<Vec<u8>> {
    Some(vec![mark; size])
}

#[test]
fn read_single_file() {
    let mut reader = Reader::with_config(8, 4, 16384);
    let results = reader.read_files(&[test_file(8192)]);
    assert_eq!(results.len(), 1);
    assert_eq!(results[0].len(), 8192);
    for (i, &b) in results[0].iter().enumerate() {
        assert_eq!(b, (i % 256) as u8, "mismatch at byte {i}");
    }
}

#[test]
fn read_multiple_files_batched() {
    let mut reader = Reader::with_config(8, 4, 16384);
    let results = reader.read_files(&[test_file(4096), test_file(8192), test_file(1024)]);
    assert_eq!(results.len(), 3);
    assert_eq!(results[0].len(), 4096);
    assert_eq!(results[1].len(), 8192);
    assert_eq!(results[2].len(), 1024);
}

#[test]
fn read_missing_file_returns_empty() {
    let mut reader = Reader::with_config(8, 4, 16384);
    let results = reader.read_files(&[test_file(4096), None]);
    assert_eq!(results.len(), 2);
    assert_eq!(results[0].len(), 4096);
    assert_eq!(results[1].len(), 0);
}

#[test]
fn read_oversized_file() {
    let mut reader = Reader::with_config(8, 4, 4096);
    let results = reader.read_files(&[test_file(16384)]);
    assert_eq!(results.len(), 1);
    assert_eq!(results[0].len(), 16384);
}

#[test]
fn read_empty_paths() {
    let mut reader = Reader::with_config(8, 4, 4096);
    let results = reader.read_files(&[]);
    assert!(results.is_empty());
}

#[test]
fn pool_buffers_are_reused() {
    let mut reader = Reader::with_config(8, 2, 4096);

    let r1 = reader.read_files(&[test_file(1024), test_file(2048)]);
    assert_eq!(r1[0].len(), 1024);
    assert_eq!(r1[1].len(), 2048);
    assert_eq!(reader.pool.available(), 2);

    let r2 = reader.read_files(&[test_file(1024)]);
    assert_eq!(r2[0].len(), 1024);
    assert_eq!(reader.pool.available(), 2);
}

fn check_marked(pool_size: usize, buf_size: usize, sizes: &[usize]) {
    let marks: Vec<u8> = (0..sizes.len()).map(|i| (i % 251) as u8).collect();
    let files: Vec<_> = sizes.iter().zip(&marks).map(|(s, m)| marked_file(*s, *m)).collect();
    let mut reader = Reader::with_config(QUEUE_DEPTH, pool_size, buf_size);
    let results = reader.read_files(&files);
    assert_eq!(results.len(), sizes.len());
    for i in 0..sizes.len() {
        assert_eq!(results[i].len(), sizes[i], "file at index {i}");
        assert!(results[i].iter().all(|&b| b == marks[i]), "file at index {i}");
    }
    assert!(reader.kernel.largest <= QUEUE_DEPTH, "no more is outstanding than the ring holds");
    assert_eq!(reader.pool.available(), pool_size);
}

#[test]
fn read_batch_larger_than_queue_depth() {
    let n = QUEUE_DEPTH * 2 + 3;
    let sizes: Vec<usize> = (0..n).map(|i| 512 + (i % 8) * 64).collect();
    check_marked(16, 65536, &sizes);
}

#[test]
fn read_batch_exactly_at_queue_depth() {
    let sizes: Vec<usize> = (0..QUEUE_DEPTH).map(|i| 512 + (i % 8) * 64).collect();
    check_marked(16, 65536, &sizes);
}

#[test]
fn read_batch_of_one_file_at_boundary() {
    let mut reader = Reader::with_config(QUEUE_DEPTH, 16, 65536);
    let results = reader.read_files(&[marked_file(4096, 0x5A)]);
    assert_eq!(results.len(), 1);
    assert_eq!(results[0].len(), 4096);
    assert!(
        results[0].iter().all(|&b| b == 0x5A),
        "single-file batch returned unexpected byte value"
    );
}

#[test]
fn read_batch_of_zero_files_at_boundary() {
    let mut reader = Reader::with_config(QUEUE_DEPTH, 16, 65536);
    let results = reader.read_files(&[]);
    assert!(results.is_empty());
}

#[test]
fn read_mixed_pool_and_oversized_in_oversized_batch() {
    let small_size = 2048;
    let large_size = 8192;
    let n = QUEUE_DEPTH + 5;
    let sizes: Vec<usize> =
        (0..n).map(|i| if i % 10 == 0 { large_size } else { small_size }).collect();
    check_marked(8, 4096, &sizes);
}

#[test]
fn a_pool_without_a_buffer_is_none() {
    assert!(BufferPool::with_config(8, 0, 4096).is_none());
    let pool = BufferPool::with_config(0, 3, 4096).expect("a pool");
    assert_eq!(pool.depth(), 1);
    assert_eq!(pool.available(), 3);
}

#[test]
fn a_ring_that_reports_nothing_is_given_up_and_keeps_the_buffer() {
    let mut pool = BufferPool::with_config(8, 2, 4096).expect("a pool");
    let Assigned::Pool(slot) = pool.assign(Some(100)) else {
        panic!("a small file takes a buffer of the pool");
    };
    let reads = vec![PlannedRead { size: 100, source: BufSource::Pool(slot) }];
    let mut batch = ReadLoop::start(reads, pool.depth());
    assert_eq!(batch.action(), Action::Push(0));
    batch.on_pushed(true);
    let mut waits = 0;
    while batch.action() != Action::Finish {
        assert_eq!(batch.action(), Action::Wait(1));
        batch.wait_for_completions(Some(1), &Vec::new());
        waits += 1;
    }
    assert_eq!(waits, MAX_STALLED_WAITS);
    assert_eq!(batch.states, vec![ReadState::InFlight]);
    assert_eq!(pool.finish(&batch.reads, &batch.states), vec![false]);
    assert_eq!(pool.available(), 1);
}

#[test]
fn a_read_that_cannot_be_queued_twice_is_left_out() {
    let mut pool = BufferPool::with_config(8, 1, 4096).expect("a pool");
    let Assigned::Pool(slot) = pool.assign(Some(1)) else {
        panic!("a small file takes a buffer of the pool");
    };
    let reads = vec![PlannedRead { size: 1, source: BufSource::Pool(slot) }];
    let mut batch = ReadLoop::start(reads, pool.depth());
    batch.on_pushed(false);
    assert_eq!(batch.action(), Action::Flush);
    let nothing =
        || Flushed { first: None, between: Vec::new(), second: None, after: Vec::new() };
    batch.on_flushed(&nothing());
    assert_eq!(batch.action(), Action::Push(0));
    batch.on_pushed(false);
    assert_eq!(batch.action(), Action::Finish);
    assert_eq!(pool.finish(&batch.reads, &batch.states), vec![false]);
    assert_eq!(pool.available(), 1);
}

#[test]
fn a_failed_read_has_no_bytes_and_gives_its_buffer_back() {
    let mut pool = BufferPool::with_config(8, 1, 4096).expect("a pool");
    pool.assign(Some(1));
    let reads = vec![PlannedRead { size: 1, source: BufSource::Pool(0) }];
    let mut batch = ReadLoop::start(reads, pool.depth());
    batch.on_pushed(true);
    batch.wait_for_completions(Some(1), &vec![Completion { index: 0, failed: true }]);
    assert_eq!(batch.action(), Action::Finish);
    assert_eq!(batch.states, vec![ReadState::Failed]);
    assert_eq!(pool.finish(&batch.reads, &batch.states), vec![false]);
    assert_eq!(pool.available(), 1);
}

#[test]
fn a_read_is_rounded_up_within_its_buffer() {
    assert_eq!(round_up_read(1, 4096, 8192), 4096);
    assert_eq!(round_up_read(4096, 4096, 8192), 4096);
    assert_eq!(round_up_read(4097, 4096, 8192), 8192);
    assert_eq!(round_up_read(4097, 4096, 5000), 5000);
    assert_eq!(round_up_read(0, 4096, 8192), 0);
}

#[test]
fn each_priority_has_its_tier() {
    assert_eq!(tier_of(Priority::Background), Tier::Low);
    assert_eq!(tier_of(Priority::Normal), Tier::Low);
    assert_eq!(tier_of(Priority::High), Tier::High);
    assert_eq!(tier_of(Priority::Critical), Tier::Critical);
}
