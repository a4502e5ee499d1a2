//! The values that the steps of a layout assign.

use crate::field::{modulus, sum_if_known, Scalar};
use crate::plan::{AssignedCell, Cell, RegionStep};
use vstd::prelude::*;

verus! {

impl RegionStep {
    /// The cell that the step assigns, in the region at position `region`.
    pub open spec fn target(self, region: usize) -> Option<Cell> {
        match self {
            RegionStep::EnableSelector { .. } => None,
            RegionStep::AdviceFromInstance { advice, offset, .. } => Some(
                Cell { region, column: advice, offset },
            ),
            RegionStep::CopyAdvice { advice, offset, .. } => Some(
                Cell { region, column: advice, offset },
            ),
            RegionStep::AdviceSum { advice, offset, .. } => Some(
                Cell { region, column: advice, offset },
            ),
        }
    }

    /// What the step assigns, where it is step `index` of the region at position `region`.
    pub open spec fn assigned(self, region: usize, index: usize) -> Option<AssignedCell> {
        match self.target(region) {
            Some(cell) => Some(AssignedCell { cell, step: index }),
            None => None,
        }
    }

    /// The value that the step assigns, in a field of order `p`, where `values` are those
    /// that the cells assigned before carry and `public` is the public value that the step reads, if it
    /// reads one. `None` stands for a value that is not known.
    pub open spec fn value(
        self,
        values: spec_fn(AssignedCell) -> Option<nat>,
        public: Option<nat>,
        p: nat,
    ) -> Option<nat> {
        match self {
            RegionStep::EnableSelector { .. } => None,
            RegionStep::AdviceFromInstance { .. } => public,
            RegionStep::CopyAdvice { source, .. } => values(source),
            RegionStep::AdviceSum { left, right, .. } => match (values(left), values(right)) {
                (Some(a), Some(b)) => Some((a + b) % p),
                _ => None,
            },
        }
    }

    /// The values that all assigned cells carry once the step is done, as step `index` of
    /// the region at position `region`.
    pub open spec fn after(
        self,
        region: usize,
        index: usize,
        values: spec_fn(AssignedCell) -> Option<nat>,
        public: Option<nat>,
        p: nat,
    ) -> spec_fn(AssignedCell) -> Option<nat> {
        |cell: AssignedCell|
            if self.assigned(region, index) == Some(cell) {
                self.value(values, public, p)
            } else {
                values(cell)
            }
    }
}

/// The last of `entries` for `cell`, where its value is known.
spec fn last_entry(entries: Seq<(AssignedCell, Option<Scalar>)>, cell: AssignedCell) -> Option<nat>
    decreases entries.len(),
{
    if entries.len() == 0 {
        None
    } else if entries.last().0 == cell {
        match entries.last().1 {
            Some(scalar) => Some(scalar@),
            None => None,
        }
    } else {
        last_entry(entries.drop_last(), cell)
    }
}

/// The values that the cells assigned so far carry, as far as they are known.
#[derive(Debug, Clone)]
pub struct Witness {
    entries: Vec<(AssignedCell, Option<Scalar>)>,
}

impl View for Witness {
    type V = spec_fn(AssignedCell) -> Option<nat>;

    closed spec fn view(&self) -> spec_fn(AssignedCell) -> Option<nat> {
        |cell: AssignedCell| last_entry(self.entries@, cell)
    }
}

impl Witness {
    /// No value is known.
    pub fn new() -> (r: Self)
        ensures
            r@ == |cell: AssignedCell| None::<nat>,
    {
        let r = Witness { entries: Vec::new() };
        assert(r@ =~= |cell: AssignedCell| None::<nat>);
        r
    }

    /// The value that `cell` carries, if it has been assigned and is known.
    pub fn value_of(&self, cell: &AssignedCell) -> (r: Option<Scalar>)
        ensures
            r is Some <==> (self@)(*cell) is Some,
            r matches Some(scalar) ==> (self@)(*cell) == Some(scalar@),
    {
        let mut i: usize = self.entries.len();
        assert(self.entries@.take(i as int) == self.entries@);
        while i > 0
            invariant
                i <= self.entries@.len(),
                last_entry(self.entries@, *cell) == last_entry(
                    self.entries@.take(i as int),
                    *cell,
                ),
            decreases i,
        {
            i = i - 1;
            assert(self.entries@.take(i + 1).drop_last() == self.entries@.take(i as int));
            if self.entries[i].0 == *cell {
                return self.entries[i].1;
            }
        }
        None
    }

    /// Takes step `index` of the region at position `region`. Where the step reads a public
    /// value, `public` is that value, if it is known. Returns the value to assign.
    pub fn assign(
        &mut self,
        region: usize,
        index: usize,
        step: &RegionStep,
        public: Option<Scalar>,
    ) -> (r: Option<Scalar>)
        ensures
            ({
                let public_number = match public {
                    Some(scalar) => Some(scalar@),
                    None => None,
                };
                let number = step.value(old(self)@, public_number, modulus());
                &&& r is Some <==> number is Some
                &&& r matches Some(scalar) ==> number == Some(scalar@)
                &&& final(self)@ == step.after(
                    region,
                    index,
                    old(self)@,
                    public_number,
                    modulus(),
                )
            }),
    {
        let ghost before = self@;
        let ghost public_number = match public {
            Some(scalar) => Some(scalar@),
            None => None,
        };
        let (column, offset, value) = match step {
            RegionStep::EnableSelector { .. } => {
                assert(self@ =~= step.after(region, index, before, public_number, modulus()));
                return None;
            },
            RegionStep::AdviceFromInstance { advice, offset, .. } => (*advice, *offset, public),
            RegionStep::CopyAdvice { source, advice, offset, .. } => {
                (*advice, *offset, self.value_of(source))
            },
            RegionStep::AdviceSum { left, right, advice, offset, .. } => {
                (*advice, *offset, sum_if_known(self.value_of(left), self.value_of(right)))
            },
        };
        let ghost entries = self.entries@;
        let cell = AssignedCell { cell: Cell { region, column, offset }, step: index };
        self.entries.push((cell, value));
        assert(self.entries@.drop_last() == entries);
        assert(self@ =~= step.after(region, index, before, public_number, modulus()));
        value
    }
}

} // verus!
