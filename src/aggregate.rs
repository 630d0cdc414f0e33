//! Partial aggregates: the sufficient statistic for a mean over one chunk,
//! and their exact, order-free combination.
use vstd::prelude::*;
use crate::element::{
    SumKind, join_kind, element_units, element_kind, units_of, kind_of, combine_kind,
    MAX_ELEMENT_UNITS,
};

verus! {

/// Exact sum of a sequence of elements, in units of 2^-24.
pub open spec fn seq_units(s: Seq<u16>) -> int
    decreases s.len(),
{
    if s.len() == 0 {
        0
    } else {
        seq_units(s.drop_last()) + element_units(s.last())
    }
}

/// Kind of the IEEE sum of a sequence of elements.
pub open spec fn seq_kind(s: Seq<u16>) -> SumKind
    decreases s.len(),
{
    if s.len() == 0 {
        SumKind::Finite
    } else {
        join_kind(seq_kind(s.drop_last()), element_kind(s.last()))
    }
}

/// Sum and count of a set of elements. `sum` is exact, in units of 2^-24;
/// `kind` records whether the IEEE sum would have been infinite or NaN.
#[derive(Clone, Copy, Debug, PartialEq, Eq, Structural)]
pub struct PartialAggregate {
    pub sum: i128,
    pub count: u64,
    pub kind: SumKind,
}

/// The combination of two aggregates, as mathematical values.
pub open spec fn combined(a: (int, int, SumKind), b: (int, int, SumKind)) -> (int, int, SumKind) {
    (a.0 + b.0, a.1 + b.1, join_kind(a.2, b.2))
}

/// Whether the combination of `a` and `b` fits the field widths.
pub open spec fn merge_fits(a: PartialAggregate, b: PartialAggregate) -> bool {
    &&& i128::MIN <= a.sum + b.sum <= i128::MAX
    &&& a.count + b.count <= u64::MAX
}

impl View for PartialAggregate {
    type V = (int, int, SumKind);

    open spec fn view(&self) -> (int, int, SumKind) {
        (self.sum as int, self.count as int, self.kind)
    }
}

impl PartialAggregate {
    /// The aggregate of no elements.
    pub fn empty() -> (r: PartialAggregate)
        ensures
            r@ == (0int, 0int, SumKind::Finite),
    {
        PartialAggregate { sum: 0, count: 0, kind: SumKind::Finite }
    }

    /// Combines two aggregates; `None` when the sum or the count would not
    /// fit its field.
    pub fn merge(&self, other: &PartialAggregate) -> (r: Option<PartialAggregate>)
        ensures
            r.is_some() <==> merge_fits(*self, *other),
            r matches Some(m) ==> m@ == combined(self@, other@),
    {
        let sum = self.sum.checked_add(other.sum);
        let count = self.count.checked_add(other.count);
        match (sum, count) {
            (Some(s), Some(c)) => Some(
                PartialAggregate { sum: s, count: c, kind: combine_kind(self.kind, other.kind) },
            ),
            _ => None,
        }
    }
}

/// Folds a sequence of elements into its sum and count. The sum is exact:
/// no precision is lost, whatever the number of elements.
pub fn reduce(elements: &Vec<u16>) -> (r: PartialAggregate)
    ensures
        r.sum == seq_units(elements@),
        r.count == elements@.len(),
        r.kind == seq_kind(elements@),
{
    let n: usize = elements.len();
    let mut sum: i128 = 0;
    let mut kind = SumKind::Finite;
    let mut i: usize = 0;
    while i < n
        invariant
            n == elements@.len(),
            i <= n,
            sum == seq_units(elements@.take(i as int)),
            kind == seq_kind(elements@.take(i as int)),
            -(i * MAX_ELEMENT_UNITS) <= sum <= i * MAX_ELEMENT_UNITS,
        decreases n - i,
    {
        let b = elements[i];
        let u = units_of(b);
        proof {
            let t = elements@.take(i as int + 1);
            assert(t.drop_last() =~= elements@.take(i as int));
            assert(t.last() == b);
            assert(i * MAX_ELEMENT_UNITS + MAX_ELEMENT_UNITS == (i + 1) * MAX_ELEMENT_UNITS)
                by (nonlinear_arith);
            assert((i + 1) * MAX_ELEMENT_UNITS <= 0x1_0000_0000_0000_0000 * MAX_ELEMENT_UNITS)
                by (nonlinear_arith)
                requires
                    i + 1 <= 0x1_0000_0000_0000_0000,
            ;
        }
        sum = sum + u as i128;
        kind = combine_kind(kind, kind_of(b));
        i = i + 1;
    }
    assert(elements@.take(n as int) =~= elements@);
    PartialAggregate { sum, count: n as u64, kind }
}

/// Merging is commutative.
pub proof fn law_merge_commutative(a: PartialAggregate, b: PartialAggregate)
    ensures
        combined(a@, b@) == combined(b@, a@),
        merge_fits(a, b) == merge_fits(b, a),
{
}

/// Merging is associative.
pub proof fn law_merge_associative(a: PartialAggregate, b: PartialAggregate, c: PartialAggregate)
    ensures
        combined(combined(a@, b@), c@) == combined(a@, combined(b@, c@)),
{
}

/// The sequence of all-zero elements (of either sign) sums to exactly zero.
pub proof fn law_zeros_sum_to_zero(s: Seq<u16>)
    requires
        forall|i: int| 0 <= i < s.len() ==> (#[trigger] s[i] == 0 || s[i] == 0x8000),
    ensures
        seq_units(s) == 0,
        seq_kind(s) == SumKind::Finite,
    decreases s.len(),
{
    if s.len() > 0 {
        let d = s.drop_last();
        assert forall|i: int| 0 <= i < d.len() implies (#[trigger] d[i] == 0 || d[i] == 0x8000) by {
            assert(d[i] == s[i]);
        }
        law_zeros_sum_to_zero(d);
        assert(s.last() == s[s.len() - 1]);
    }
}

/// The empty sequence reduces to the empty aggregate.
pub proof fn law_empty_reduces_to_zero(s: Seq<u16>)
    requires
        s.len() == 0,
    ensures
        seq_units(s) == 0,
        seq_kind(s) == SumKind::Finite,
{
}

} // verus!
