//! The decisions of the chunk pipeline: which unit of work to start next,
//! how many may be in flight, how results are folded, and when the run has
//! finished or failed. The caller performs each action and reports back.
use vstd::prelude::*;
use crate::aggregate::{PartialAggregate, combined, merge_fits};
use crate::codec::ChunkError;
use crate::element::SumKind;
use crate::grid::{ChunkCoordinate, GridShape, enumerate_grid};

verus! {

/// Where one unit of work (one chunk) stands.
#[derive(Clone, Copy, Debug, PartialEq, Eq, Structural)]
pub enum UnitState {
    Pending,
    InFlight,
    Done(PartialAggregate),
    Failed,
}

/// What the caller is to do next.
#[derive(Clone, Copy, Debug, PartialEq, Eq, Structural)]
pub enum Action {
    /// Fetch, decode and reduce the chunk at `coord`, then report it as `unit`.
    Dispatch { unit: usize, coord: ChunkCoordinate },
    /// Wait for an in-flight unit to be reported.
    Wait,
    /// Every unit succeeded; this is the aggregate over all of them.
    Finished(PartialAggregate),
    /// A unit failed (or the total overflowed); no aggregate is reported.
    Aborted(ChunkError),
}

pub open spec fn is_in_flight(s: UnitState) -> bool {
    s == UnitState::InFlight
}

/// Number of units in flight.
pub open spec fn count_in_flight(s: Seq<UnitState>) -> int
    decreases s.len(),
{
    if s.len() == 0 {
        0
    } else {
        count_in_flight(s.drop_last()) + if is_in_flight(s.last()) {
            1int
        } else {
            0int
        }
    }
}

/// What a unit contributes to the total.
pub open spec fn contribution(s: UnitState) -> (int, int, SumKind) {
    match s {
        UnitState::Done(p) => p@,
        _ => (0int, 0int, SumKind::Finite),
    }
}

/// The combination of the results of all finished units, by unit index.
pub open spec fn done_total(s: Seq<UnitState>) -> (int, int, SumKind)
    decreases s.len(),
{
    if s.len() == 0 {
        (0int, 0int, SumKind::Finite)
    } else {
        combined(done_total(s.drop_last()), contribution(s.last()))
    }
}

proof fn lemma_update_in_flight(s: Seq<UnitState>, i: int, v: UnitState)
    requires
        0 <= i < s.len(),
    ensures
        count_in_flight(s.update(i, v)) == count_in_flight(s) - (if is_in_flight(s[i]) {
            1int
        } else {
            0int
        }) + (if is_in_flight(v) {
            1int
        } else {
            0int
        }),
        0 <= count_in_flight(s) <= s.len(),
    decreases s.len(),
{
    let t = s.update(i, v);
    if i < s.len() - 1 {
        assert(t.drop_last() =~= s.drop_last().update(i, v));
        lemma_update_in_flight(s.drop_last(), i, v);
    } else {
        assert(t.drop_last() =~= s.drop_last());
        lemma_count_bounds(s.drop_last());
    }
}

proof fn lemma_count_bounds(s: Seq<UnitState>)
    ensures
        0 <= count_in_flight(s) <= s.len(),
    decreases s.len(),
{
    if s.len() > 0 {
        lemma_count_bounds(s.drop_last());
    }
}

proof fn lemma_none_in_flight(s: Seq<UnitState>, i: int)
    requires
        count_in_flight(s) == 0,
        0 <= i < s.len(),
    ensures
        !is_in_flight(s[i]),
    decreases s.len(),
{
    lemma_count_bounds(s.drop_last());
    if i < s.len() - 1 {
        assert(s.drop_last()[i] == s[i]);
        lemma_none_in_flight(s.drop_last(), i);
    }
}

proof fn lemma_update_total(s: Seq<UnitState>, i: int, v: UnitState)
    requires
        0 <= i < s.len(),
        contribution(s[i]) == (0int, 0int, SumKind::Finite),
    ensures
        done_total(s.update(i, v)) == combined(done_total(s), contribution(v)),
    decreases s.len(),
{
    let t = s.update(i, v);
    if i < s.len() - 1 {
        assert(t.drop_last() =~= s.drop_last().update(i, v));
        lemma_update_total(s.drop_last(), i, v);
    } else {
        assert(t.drop_last() =~= s.drop_last());
    }
}

/// Runs one pass over a grid: dispatches every coordinate exactly once,
/// never with more than a fixed number of units in flight, folds each
/// result as it arrives, and stops at the first failure.
pub struct Orchestrator {
    shape: GridShape,
    coords: Vec<ChunkCoordinate>,
    states: Vec<UnitState>,
    next: usize,
    in_flight: usize,
    max_in_flight: usize,
    total: PartialAggregate,
    failure: Option<ChunkError>,
}

impl Orchestrator {
    pub closed spec fn grid(&self) -> GridShape {
        self.shape
    }

    /// The coordinate of each unit.
    pub closed spec fn coordinates(&self) -> Seq<ChunkCoordinate> {
        self.coords@
    }

    /// The state of each unit.
    pub closed spec fn units(&self) -> Seq<UnitState> {
        self.states@
    }

    /// The unit to be dispatched next; every unit below it has been.
    pub closed spec fn next_unit(&self) -> int {
        self.next as int
    }

    /// The most units that may be in flight at once.
    pub closed spec fn bound(&self) -> int {
        self.max_in_flight as int
    }

    /// The running total over the units reported so far.
    pub closed spec fn running_total(&self) -> PartialAggregate {
        self.total
    }

    /// The failure that ended the run, if any.
    pub closed spec fn failure(&self) -> Option<ChunkError> {
        self.failure
    }

    pub closed spec fn wf(&self) -> bool {
        &&& self.coords@.len() == self.shape.cell_count()
        &&& self.states@.len() == self.coords@.len()
        &&& forall|i: int|
            0 <= i < self.coords@.len() ==> #[trigger] self.coords@[i]
                == self.shape.coordinate_at(i)
        &&& forall|i: int, j: int|
            0 <= i < j < self.coords@.len() ==> #[trigger] self.coords@[i]
                != #[trigger] self.coords@[j]
        &&& forall|i: int| 0 <= i < self.coords@.len() ==> self.shape.contains(#[trigger] self.coords@[i])
        &&& forall|c: ChunkCoordinate| #[trigger] self.shape.contains(c) ==> {
            &&& 0 <= self.shape.index_of(c) < self.coords@.len()
            &&& self.coords@[self.shape.index_of(c)] == c
        }
        &&& self.next <= self.states@.len()
        &&& forall|i: int|
            0 <= i < self.states@.len() ==> (#[trigger] self.states@[i] == UnitState::Pending
                <==> i >= self.next)
        &&& self.failure.is_none() ==> forall|i: int|
            0 <= i < self.states@.len() ==> #[trigger] self.states@[i] != UnitState::Failed
        &&& self.in_flight == count_in_flight(self.states@)
        &&& 1 <= self.max_in_flight
        &&& self.in_flight <= self.max_in_flight
        &&& self.total@ == done_total(self.states@)
    }

    /// A run over every coordinate of `shape` with at most `max_in_flight`
    /// units in flight; `None` when the grid has more cells than a `usize`
    /// counts, or when `max_in_flight` is zero.
    pub fn new(shape: GridShape, max_in_flight: usize) -> (r: Option<Orchestrator>)
        ensures
            r.is_none() <==> (shape.cell_count() > usize::MAX || max_in_flight == 0),
            r matches Some(o) ==> {
                &&& o.wf()
                &&& o.grid() == shape
                &&& o.bound() == max_in_flight
                &&& o.next_unit() == 0
                &&& o.failure().is_none()
                &&& o.units().len() == shape.cell_count()
                &&& o.coordinates().len() == shape.cell_count()
                &&& count_in_flight(o.units()) == 0
                &&& forall|i: int| 0 <= i < o.units().len() ==> #[trigger] o.units()[i]
                    == UnitState::Pending
                &&& forall|i: int| 0 <= i < o.coordinates().len() ==> #[trigger] o.coordinates()[i]
                    == shape.coordinate_at(i)
            },
    {
        let nyz = shape.ny.checked_mul(shape.nz);
        let cells = match nyz {
            Some(m) => shape.nx.checked_mul(m),
            None => None,
        };
        proof {
            assert(shape.nx * (shape.ny * shape.nz) == shape.cell_count()) by (nonlinear_arith);
            assert(usize::MAX <= u64::MAX);
            if nyz.is_none() && shape.nx > 0 {
                assert(shape.ny * shape.nz <= shape.nx * (shape.ny * shape.nz)) by (nonlinear_arith)
                    requires
                        shape.nx >= 1,
                        shape.ny * shape.nz >= 0,
                ;
            }
            if nyz.is_none() && shape.nx == 0 {
                assert(shape.nx * (shape.ny * shape.nz) == 0);
            }
        }
        if max_in_flight == 0 {
            return None;
        }
        let n: usize = match cells {
            Some(c) => {
                if c > usize::MAX as u64 {
                    return None;
                }
                c as usize
            },
            None => {
                if shape.nx == 0 {
                    0
                } else {
                    return None;
                }
            },
        };
        let coords = enumerate_grid(shape);
        let mut states: Vec<UnitState> = Vec::with_capacity(n);
        let mut i: usize = 0;
        while i < n
            invariant
                n == coords@.len(),
                i <= n,
                states@.len() == i,
                forall|j: int| 0 <= j < i ==> #[trigger] states@[j] == UnitState::Pending,
                count_in_flight(states@) == 0,
                done_total(states@) == (0int, 0int, SumKind::Finite),
            decreases n - i,
        {
            let ghost before = states@;
            states.push(UnitState::Pending);
            assert(states@.drop_last() =~= before);
            i = i + 1;
        }
        Some(
            Orchestrator {
                shape,
                coords,
                states,
                next: 0,
                in_flight: 0,
                max_in_flight,
                total: PartialAggregate::empty(),
                failure: None,
            },
        )
    }

    /// Number of units in the run.
    pub fn unit_count(&self) -> (r: usize)
        requires
            self.wf(),
        ensures
            r == self.units().len(),
    {
        self.states.len()
    }

    /// Number of units dispatched and not yet reported.
    pub fn in_flight(&self) -> (r: usize)
        requires
            self.wf(),
        ensures
            r == count_in_flight(self.units()),
    {
        self.in_flight
    }

    /// Decides the next action. Once a failure is recorded the answer is
    /// always that failure; otherwise a unit is dispatched while one is left
    /// and the bound allows, and the total is reported once every unit is in.
    pub fn poll(&mut self) -> (a: Action)
        requires
            old(self).wf(),
        ensures
            final(self).wf(),
            final(self).grid() == old(self).grid(),
            final(self).bound() == old(self).bound(),
            final(self).coordinates() == old(self).coordinates(),
            final(self).failure() == old(self).failure(),
            old(self).failure() matches Some(e) ==> a == Action::Aborted(e) && *final(self)
                == *old(self),
            old(self).failure().is_none() && old(self).next_unit() < old(self).units().len()
                && count_in_flight(old(self).units()) < old(self).bound() ==> {
                &&& a == Action::Dispatch {
                    unit: old(self).next_unit() as usize,
                    coord: old(self).coordinates()[old(self).next_unit()],
                }
                &&& final(self).next_unit() == old(self).next_unit() + 1
                &&& final(self).units() == old(self).units().update(
                    old(self).next_unit(),
                    UnitState::InFlight,
                )
                &&& final(self).running_total() == old(self).running_total()
            },
            old(self).failure().is_none() && old(self).next_unit() < old(self).units().len()
                && count_in_flight(old(self).units()) >= old(self).bound() ==> a == Action::Wait
                && *final(self) == *old(self),
            old(self).failure().is_none() && old(self).next_unit() == old(self).units().len()
                && count_in_flight(old(self).units()) > 0 ==> a == Action::Wait && *final(self)
                == *old(self),
            old(self).failure().is_none() && old(self).next_unit() == old(self).units().len()
                && count_in_flight(old(self).units()) == 0 ==> {
                &&& a == Action::Finished(old(self).running_total())
                &&& *final(self) == *old(self)
                &&& old(self).running_total()@ == done_total(old(self).units())
                &&& forall|i: int|
                    0 <= i < old(self).units().len() ==> (#[trigger] old(self).units()[i]) is Done
            },
    {
        if let Some(e) = self.failure {
            return Action::Aborted(e);
        }
        if self.next < self.states.len() {
            if self.in_flight < self.max_in_flight {
                let unit = self.next;
                proof {
                    lemma_update_in_flight(self.states@, unit as int, UnitState::InFlight);
                    lemma_update_total(self.states@, unit as int, UnitState::InFlight);
                }
                self.states.set(unit, UnitState::InFlight);
                self.next = unit + 1;
                self.in_flight = self.in_flight + 1;
                return Action::Dispatch { unit, coord: self.coords[unit] };
            }
            return Action::Wait;
        }
        if self.in_flight > 0 {
            return Action::Wait;
        }
        proof {
            assert forall|i: int| 0 <= i < self.states@.len() implies (#[trigger] self.states@[
                i]) is Done by {
                lemma_none_in_flight(self.states@, i);
            }
        }
        Action::Finished(self.total)
    }

    /// Records the outcome of unit `unit`. Reports that do not belong to a
    /// unit in flight, and every report after a failure, are refused and
    /// change nothing. A failed unit, or a result that would overflow the
    /// total, ends the run.
    pub fn complete(&mut self, unit: usize, outcome: Result<PartialAggregate, ChunkError>) -> (r:
        bool)
        requires
            old(self).wf(),
        ensures
            final(self).wf(),
            final(self).grid() == old(self).grid(),
            final(self).bound() == old(self).bound(),
            final(self).coordinates() == old(self).coordinates(),
            final(self).next_unit() == old(self).next_unit(),
            r == (old(self).failure().is_none() && unit < old(self).units().len()
                && old(self).units()[unit as int] == UnitState::InFlight),
            !r ==> *final(self) == *old(self),
            r && outcome is Ok && merge_fits(old(self).running_total(), outcome->Ok_0) ==> {
                &&& final(self).units() == old(self).units().update(
                    unit as int,
                    UnitState::Done(outcome->Ok_0),
                )
                &&& final(self).running_total()@ == combined(
                    old(self).running_total()@,
                    (outcome->Ok_0)@,
                )
                &&& final(self).failure().is_none()
            },
            r && outcome is Ok && !merge_fits(old(self).running_total(), outcome->Ok_0)
                ==> final(self).failure() == Some(ChunkError::Arithmetic),
            r && outcome is Err ==> final(self).failure() == Some(outcome->Err_0),
            r && !(outcome is Ok && merge_fits(old(self).running_total(), outcome->Ok_0))
                ==> final(self).units() == old(self).units().update(unit as int, UnitState::Failed)
                && final(self).running_total() == old(self).running_total(),
    {
        if self.failure.is_some() || unit >= self.states.len() {
            return false;
        }
        match self.states[unit] {
            UnitState::InFlight => {},
            _ => {
                return false;
            },
        }
        proof {
            lemma_update_in_flight(self.states@, unit as int, UnitState::Failed);
            lemma_count_bounds(self.states@.update(unit as int, UnitState::Failed));
        }
        match outcome {
            Ok(p) => {
                match self.total.merge(&p) {
                    Some(t) => {
                        proof {
                            lemma_update_in_flight(self.states@, unit as int, UnitState::Done(p));
                            lemma_update_total(self.states@, unit as int, UnitState::Done(p));
                        }
                        self.states.set(unit, UnitState::Done(p));
                        self.total = t;
                    },
                    None => {
                        proof {
                            lemma_update_total(self.states@, unit as int, UnitState::Failed);
                        }
                        self.states.set(unit, UnitState::Failed);
                        self.failure = Some(ChunkError::Arithmetic);
                    },
                }
            },
            Err(e) => {
                proof {
                    lemma_update_total(self.states@, unit as int, UnitState::Failed);
                }
                self.states.set(unit, UnitState::Failed);
                self.failure = Some(e);
            },
        }
        self.in_flight = self.in_flight - 1;
        true
    }
}

/// At no point are more units in flight than the bound.
pub proof fn law_in_flight_within_bound(o: Orchestrator)
    requires
        o.wf(),
    ensures
        count_in_flight(o.units()) <= o.bound(),
{
}

/// The running total is fixed by the result each unit reported, whatever
/// the order in which the reports arrived.
pub proof fn law_total_independent_of_order(a: Orchestrator, b: Orchestrator)
    requires
        a.wf(),
        b.wf(),
        a.units() == b.units(),
    ensures
        a.running_total()@ == done_total(a.units()),
        a.running_total()@ == b.running_total()@,
{
}

/// The units and the cells of the grid correspond one to one: each unit
/// has a cell of its own, and each cell belongs to a unit.
pub proof fn law_units_cover_grid(o: Orchestrator)
    requires
        o.wf(),
    ensures
        o.coordinates().len() == o.grid().cell_count(),
        forall|i: int| 0 <= i < o.coordinates().len() ==> o.grid().contains(#[trigger] o.coordinates()[i]),
        forall|i: int, j: int|
            0 <= i < j < o.coordinates().len() ==> #[trigger] o.coordinates()[i]
                != #[trigger] o.coordinates()[j],
        forall|c: ChunkCoordinate| #[trigger] o.grid().contains(c) ==> exists|i: int|
            0 <= i < o.coordinates().len() && o.coordinates()[i] == c,
{
    assert forall|c: ChunkCoordinate| #[trigger] o.grid().contains(c) implies exists|i: int|
        0 <= i < o.coordinates().len() && o.coordinates()[i] == c by {
        let i = o.grid().index_of(c);
        assert(o.coordinates()[i] == c);
    }
}

} // verus!
