use std::collections::HashSet;

use chunk_mean::aggregate::PartialAggregate;
use chunk_mean::codec::{chunk_aggregate, plan_decode, ChunkError};
use chunk_mean::element::SumKind;
use chunk_mean::grid::{chunk_key, chunk_url, enumerate_grid, ChunkCoordinate, GridShape};
use chunk_mean::orchestrator::{Action, Orchestrator};

fn coord(x: u64, y: u64, z: u64) -> ChunkCoordinate {
    ChunkCoordinate { x, y, z }
}

#[test]
fn keys_join_decimal_components() {
    assert_eq!(chunk_key(coord(1, 0, 3)), "1.0.3");
    assert_eq!(chunk_key(coord(12, 340, 5678)), "12.340.5678");
    assert_eq!(chunk_key(coord(u64::MAX, 10, 9)), format!("{}.10.9", u64::MAX));
}

#[test]
fn url_names_field_and_key() {
    assert_eq!(
        chunk_url("https://example.org/data.zarr", "TMP", coord(0, 4, 7)),
        "https://example.org/data.zarr/TMP/0.4.7"
    );
}

#[test]
fn keys_are_distinct_across_grid() {
    let cells = enumerate_grid(GridShape { nx: 11, ny: 12, nz: 3 });
    let keys: HashSet<String> = cells.iter().map(|c| chunk_key(*c)).collect();
    assert_eq!(keys.len(), cells.len());
}

#[test]
fn grid_enumeration_is_row_major_and_complete() {
    let cells = enumerate_grid(GridShape { nx: 2, ny: 4, nz: 5 });
    assert_eq!(cells.len(), 40);
    assert_eq!(cells[0], coord(0, 0, 0));
    assert_eq!(cells[1], coord(0, 0, 1));
    assert_eq!(cells[5], coord(0, 1, 0));
    assert_eq!(cells[20], coord(1, 0, 0));
    assert_eq!(cells[39], coord(1, 3, 4));
    let set: HashSet<(u64, u64, u64)> = cells.iter().map(|c| (c.x, c.y, c.z)).collect();
    assert_eq!(set.len(), 40);
    assert!(cells.iter().all(|c| c.x < 2 && c.y < 4 && c.z < 5));
}

#[test]
fn empty_grid_has_no_cells() {
    assert!(enumerate_grid(GridShape { nx: 0, ny: 4, nz: 5 }).is_empty());
    assert!(enumerate_grid(GridShape { nx: 3, ny: 4, nz: 0 }).is_empty());
}

#[test]
fn orchestrator_refuses_zero_bound_and_huge_grid() {
    assert!(Orchestrator::new(GridShape { nx: 2, ny: 4, nz: 5 }, 0).is_none());
    assert!(Orchestrator::new(GridShape { nx: u64::MAX, ny: 2, nz: 1 }, 10).is_none());
    assert!(Orchestrator::new(GridShape { nx: 0, ny: u64::MAX, nz: u64::MAX }, 10).is_some());
}

/// Deterministic payload of the chunk at `c`: a few binary16 values.
fn payload(c: ChunkCoordinate) -> Vec<u8> {
    let n = 3 + (c.x + 2 * c.y + 3 * c.z) % 5;
    let mut out = Vec::new();
    for i in 0..n {
        // small integers 0..=15 as binary16: 0 or 0x3C00-based patterns
        let v = (c.x * 7 + c.y * 3 + c.z + i) % 16;
        let bits: u16 = if v == 0 { 0 } else { half_of_int(v) };
        out.extend_from_slice(&bits.to_le_bytes());
    }
    out
}

fn half_of_int(v: u64) -> u16 {
    let e = 63 - v.leading_zeros() as u64;
    let mant = ((v << 10) >> e) & 0x3FF;
    (((e + 15) << 10) | mant) as u16
}

fn unit_result(c: ChunkCoordinate) -> PartialAggregate {
    let bytes = payload(c);
    let plan = plan_decode(16, bytes.len()).unwrap();
    chunk_aggregate(&plan, bytes.len() as i32, &bytes).unwrap()
}

struct Lcg(u64);

impl Lcg {
    fn next(&mut self, n: usize) -> usize {
        self.0 = self.0.wrapping_mul(6364136223846793005).wrapping_add(1442695040888963407);
        ((self.0 >> 33) as usize) % n
    }
}

/// Drives a run, completing a random in-flight unit whenever told to wait,
/// and checks that no more than `k` units are ever in flight.
fn run(shape: GridShape, k: usize, seed: u64, failing: Option<ChunkCoordinate>) -> (Action, Vec<ChunkCoordinate>) {
    let mut o = Orchestrator::new(shape, k).unwrap();
    let mut rng = Lcg(seed);
    let mut in_flight: Vec<(usize, ChunkCoordinate)> = Vec::new();
    let mut dispatched = Vec::new();
    let mut failed = false;
    loop {
        // complete a unit early sometimes, to shuffle completion order
        if !in_flight.is_empty() && rng.next(3) == 0 {
            let (u, c) = in_flight.swap_remove(rng.next(in_flight.len()));
            let outcome = if Some(c) == failing { Err(ChunkError::HttpStatus { status: 503 }) } else { Ok(unit_result(c)) };
            assert_eq!(o.complete(u, outcome), !failed);
            failed = failed || Some(c) == failing;
            assert!(!o.complete(u, Ok(unit_result(c))));
            continue;
        }
        match o.poll() {
            Action::Dispatch { unit, coord } => {
                in_flight.push((unit, coord));
                dispatched.push(coord);
                assert!(in_flight.len() <= k);
                assert_eq!(o.in_flight(), in_flight.len());
            }
            Action::Wait => {
                assert!(!in_flight.is_empty());
                let (u, c) = in_flight.swap_remove(rng.next(in_flight.len()));
                let outcome = if Some(c) == failing { Err(ChunkError::HttpStatus { status: 503 }) } else { Ok(unit_result(c)) };
                assert_eq!(o.complete(u, outcome), !failed);
                failed = failed || Some(c) == failing;
            }
            done => return (done, dispatched),
        }
    }
}

#[test]
fn grid_of_forty_dispatches_each_cell_once() {
    let shape = GridShape { nx: 2, ny: 4, nz: 5 };
    let (action, dispatched) = run(shape, 10, 1, None);
    assert_eq!(dispatched.len(), 40);
    let set: HashSet<(u64, u64, u64)> = dispatched.iter().map(|c| (c.x, c.y, c.z)).collect();
    assert_eq!(set.len(), 40);
    let expected_count: u64 = enumerate_grid(shape).iter().map(|c| unit_result(*c).count).sum();
    let expected_sum: i128 = enumerate_grid(shape).iter().map(|c| unit_result(*c).sum).sum();
    match action {
        Action::Finished(total) => {
            assert_eq!(total.count, expected_count);
            assert_eq!(total.sum, expected_sum);
            assert_eq!(total.kind, SumKind::Finite);
        }
        other => panic!("unexpected {:?}", other),
    }
}

#[test]
fn bound_of_ten_is_respected() {
    for seed in 0..20 {
        let (action, _) = run(GridShape { nx: 2, ny: 4, nz: 5 }, 10, seed, None);
        assert!(matches!(action, Action::Finished(_)));
    }
    let (action, _) = run(GridShape { nx: 3, ny: 3, nz: 3 }, 1, 5, None);
    assert!(matches!(action, Action::Finished(_)));
}

#[test]
fn mean_is_independent_of_completion_order() {
    let shape = GridShape { nx: 2, ny: 4, nz: 5 };
    let (first, _) = run(shape, 10, 42, None);
    for seed in 100..130 {
        let (other, _) = run(shape, 10, seed, None);
        assert_eq!(other, first);
    }
    if let Action::Finished(t) = first {
        let mean = t.sum as f64 / 16777216.0 / t.count as f64;
        assert!(mean > 0.0 && mean < 16.0);
    } else {
        panic!("run did not finish");
    }
}

#[test]
fn failing_unit_aborts_the_run() {
    let shape = GridShape { nx: 2, ny: 4, nz: 5 };
    for seed in 0..10 {
        let (action, _) = run(shape, 10, seed, Some(coord(1, 2, 3)));
        assert_eq!(action, Action::Aborted(ChunkError::HttpStatus { status: 503 }));
    }
}

#[test]
fn aborted_run_stays_aborted() {
    let mut o = Orchestrator::new(GridShape { nx: 1, ny: 1, nz: 2 }, 4).unwrap();
    let a = o.poll();
    let b = o.poll();
    assert!(matches!(a, Action::Dispatch { unit: 0, .. }));
    assert!(matches!(b, Action::Dispatch { unit: 1, .. }));
    assert!(o.complete(0, Err(ChunkError::Network)));
    assert!(!o.complete(1, Ok(PartialAggregate::empty())));
    assert_eq!(o.poll(), Action::Aborted(ChunkError::Network));
    assert_eq!(o.poll(), Action::Aborted(ChunkError::Network));
}

#[test]
fn unknown_unit_reports_are_refused() {
    let mut o = Orchestrator::new(GridShape { nx: 1, ny: 1, nz: 2 }, 1).unwrap();
    assert!(!o.complete(0, Ok(PartialAggregate::empty())));
    assert!(!o.complete(9, Ok(PartialAggregate::empty())));
    assert!(matches!(o.poll(), Action::Dispatch { unit: 0, .. }));
    assert_eq!(o.poll(), Action::Wait);
    assert_eq!(o.unit_count(), 2);
}

#[test]
fn total_overflow_aborts_the_run() {
    let mut o = Orchestrator::new(GridShape { nx: 1, ny: 1, nz: 2 }, 2).unwrap();
    o.poll();
    o.poll();
    let big = PartialAggregate { sum: 0, count: u64::MAX, kind: SumKind::Finite };
    assert!(o.complete(0, Ok(big)));
    assert!(o.complete(1, Ok(PartialAggregate { sum: 0, count: 1, kind: SumKind::Finite })));
    assert_eq!(o.poll(), Action::Aborted(ChunkError::Arithmetic));
}
