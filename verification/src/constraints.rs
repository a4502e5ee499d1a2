//! What it means for values to satisfy a circuit.
//!
//! Cells are told apart by region, column and row offset: a layouter gives every region rows
//! of its own in the columns that it uses. A gate counts on every row of every region.

use crate::plan::{
    ActionView, AdviceColumn, AnyColumn, ArrangementView, AssignedCell, Cell, Expression, GateView,
    InstanceColumn, LayoutView, PlacementView, RegionStep, Selector,
};
use vstd::prelude::*;

verus! {

impl Expression {
    /// The value of the polynomial on a row, over the integers.
    pub open spec fn evaluate(
        self,
        selectors: spec_fn(Selector) -> int,
        advice: spec_fn(AdviceColumn) -> int,
    ) -> int
        decreases self,
    {
        match self {
            Expression::Selector(selector) => selectors(selector),
            Expression::Advice(column) => advice(column),
            Expression::Negated(inner) => -inner.evaluate(selectors, advice),
            Expression::Sum(left, right) => left.evaluate(selectors, advice) + right.evaluate(
                selectors,
                advice,
            ),
            Expression::Product(left, right) => left.evaluate(selectors, advice) * right.evaluate(
                selectors,
                advice,
            ),
        }
    }
}

/// The value of each selector at row `offset` of a region with the given steps: one where a
/// step enables it there, zero elsewhere.
pub open spec fn selectors_at(steps: Seq<RegionStep>, offset: usize) -> spec_fn(Selector) -> int {
    |selector: Selector|
        if steps.contains(RegionStep::EnableSelector { selector, offset }) {
            1
        } else {
            0
        }
}

/// The value of each advice column at row `offset` of the region at position `region`.
pub open spec fn advice_at(
    values: spec_fn(Cell) -> nat,
    region: usize,
    offset: usize,
) -> spec_fn(AdviceColumn) -> int {
    |column: AdviceColumn| values(Cell { region, column, offset }) as int
}

/// The public value at `row` of `instance`.
pub open spec fn public_value(public: Seq<Seq<nat>>, instance: InstanceColumn, row: usize) -> nat {
    public[instance.index as int][row as int]
}

/// All polynomials of all gates vanish, modulo `p`, at row `offset` of a region.
pub open spec fn gates_vanish(
    gates: Seq<GateView>,
    region: usize,
    steps: Seq<RegionStep>,
    offset: usize,
    values: spec_fn(Cell) -> nat,
    p: nat,
) -> bool {
    forall|g: int, k: int|
        0 <= g < gates.len() && 0 <= k < gates[g].polys.len()
            ==> (#[trigger] gates[g].polys[k]).evaluate(
            selectors_at(steps, offset),
            advice_at(values, region, offset),
        ) % (p as int) == 0
}

/// The equality that the step asks for holds, if it asks for one.
pub open spec fn equality_holds(
    step: RegionStep,
    region: usize,
    values: spec_fn(Cell) -> nat,
    public: Seq<Seq<nat>>,
) -> bool {
    match step {
        RegionStep::EnableSelector { .. } => true,
        RegionStep::AdviceFromInstance { instance, row, advice, offset, .. } => values(
            Cell { region, column: advice, offset },
        ) == public_value(public, instance, row),
        RegionStep::CopyAdvice { source, advice, offset, .. } => values(
            Cell { region, column: advice, offset },
        ) == values(source.cell),
        RegionStep::AdviceSum { .. } => true,
    }
}

/// The constraints of the request at position `position` of a layout hold.
pub open spec fn placement_holds(
    gates: Seq<GateView>,
    placement: PlacementView,
    position: usize,
    values: spec_fn(Cell) -> nat,
    public: Seq<Seq<nat>>,
    p: nat,
) -> bool {
    match placement.action {
        ActionView::AssignRegion { steps, .. } => {
            &&& forall|offset: usize|
                #[trigger] gates_vanish(gates, position, steps, offset, values, p)
            &&& forall|k: int|
                0 <= k < steps.len() ==> equality_holds(
                    #[trigger] steps[k],
                    position,
                    values,
                    public,
                )
        },
        ActionView::ConstrainInstance { cell, instance, row } => values(cell) == public_value(
            public,
            instance,
            row,
        ),
    }
}

/// `values`, elements of a field of order `p`, satisfy all constraints of a circuit for the
/// given public values.
pub open spec fn satisfies(
    values: spec_fn(Cell) -> nat,
    arrangement: ArrangementView,
    layout: LayoutView,
    public: Seq<Seq<nat>>,
    p: nat,
) -> bool {
    &&& forall|cell: Cell| #[trigger] values(cell) < p
    &&& forall|i: int|
        0 <= i < layout.placements.len() ==> placement_holds(
            arrangement.gates,
            #[trigger] layout.placements[i],
            i as usize,
            values,
            public,
            p,
        )
}

/// Some values satisfy the circuit for the given public values.
pub open spec fn satisfiable(
    arrangement: ArrangementView,
    layout: LayoutView,
    public: Seq<Seq<nat>>,
    p: nat,
) -> bool {
    exists|values: spec_fn(Cell) -> nat|
        #[trigger] satisfies(values, arrangement, layout, public, p)
}

/// The public value that the step reads, if it reads one.
pub open spec fn read_by(step: RegionStep, public: Seq<Seq<nat>>) -> Option<nat> {
    match step {
        RegionStep::AdviceFromInstance { instance, row, .. } => Some(
            public_value(public, instance, row),
        ),
        _ => None,
    }
}

/// The values that all assigned cells carry once the first `count` steps of a region are done,
/// where all public values are known.
pub open spec fn after_steps(
    steps: Seq<RegionStep>,
    count: nat,
    region: usize,
    values: spec_fn(AssignedCell) -> Option<nat>,
    public: Seq<Seq<nat>>,
    p: nat,
) -> spec_fn(AssignedCell) -> Option<nat>
    decreases count,
{
    if count == 0 {
        values
    } else {
        steps[count - 1].after(
            region,
            (count - 1) as usize,
            after_steps(steps, (count - 1) as nat, region, values, public, p),
            read_by(steps[count - 1], public),
            p,
        )
    }
}

/// The values that the cells which the first `count` requests of a layout assign carry once
/// these are replayed, where all public values are known.
pub open spec fn replayed(
    layout: LayoutView,
    count: nat,
    public: Seq<Seq<nat>>,
    p: nat,
) -> spec_fn(AssignedCell) -> Option<nat>
    decreases count,
{
    if count == 0 {
        |cell: AssignedCell| None::<nat>
    } else {
        let before = replayed(layout, (count - 1) as nat, public, p);
        match layout.placements[count - 1].action {
            ActionView::AssignRegion { steps, .. } => after_steps(
                steps,
                steps.len(),
                (count - 1) as usize,
                before,
                public,
                p,
            ),
            ActionView::ConstrainInstance { .. } => before,
        }
    }
}

/// The last among the first `count` steps of the region at position `region` that assigns
/// `cell`.
pub open spec fn last_assignment(
    steps: Seq<RegionStep>,
    count: nat,
    region: usize,
    cell: Cell,
) -> Option<AssignedCell>
    decreases count,
{
    if count == 0 {
        None
    } else if steps[count - 1].target(region) == Some(cell) {
        Some(AssignedCell { cell, step: (count - 1) as usize })
    } else {
        last_assignment(steps, (count - 1) as nat, region, cell)
    }
}

/// What a cell holds in the end is what the last step assigns that assigns it.
pub open spec fn assignment_that_counts(layout: LayoutView, cell: Cell) -> Option<AssignedCell> {
    if cell.region < layout.placements.len() {
        match layout.placements[cell.region as int].action {
            ActionView::AssignRegion { steps, .. } => last_assignment(
                steps,
                steps.len(),
                cell.region,
                cell,
            ),
            ActionView::ConstrainInstance { .. } => None,
        }
    } else {
        None
    }
}

/// The values that the cells hold once a whole layout is replayed. A cell that is never
/// assigned holds zero.
pub open spec fn replayed_values(
    layout: LayoutView,
    public: Seq<Seq<nat>>,
    p: nat,
) -> spec_fn(Cell) -> nat {
    |cell: Cell|
        match assignment_that_counts(layout, cell) {
            Some(assigned) => match replayed(layout, layout.placements.len(), public, p)(assigned) {
                Some(value) => value,
                None => 0,
            },
            None => 0,
        }
}

/// The step ties a cell of `column` to another cell or to a public value.
pub open spec fn step_copies_column(step: RegionStep, column: AnyColumn) -> bool {
    match step {
        RegionStep::EnableSelector { .. } => false,
        RegionStep::AdviceFromInstance { instance, advice, .. } => {
            ||| column == AnyColumn::Instance(instance)
            ||| column == AnyColumn::Advice(advice)
        },
        RegionStep::CopyAdvice { source, advice, .. } => {
            ||| column == AnyColumn::Advice(source.cell.column)
            ||| column == AnyColumn::Advice(advice)
        },
        RegionStep::AdviceSum { .. } => false,
    }
}

/// The request ties a cell of `column` to another cell or to a public value.
pub open spec fn copies_column(placement: PlacementView, column: AnyColumn) -> bool {
    match placement.action {
        ActionView::AssignRegion { steps, .. } => exists|k: int|
            0 <= k < steps.len() && step_copies_column(#[trigger] steps[k], column),
        ActionView::ConstrainInstance { cell, instance, .. } => {
            ||| column == AnyColumn::Instance(instance)
            ||| column == AnyColumn::Advice(cell.column)
        },
    }
}

/// The columns whose cells the request ties to other cells or to public values all allow
/// equality.
pub open spec fn copies_are_enabled(
    equality: Seq<AnyColumn>,
    placement: PlacementView,
) -> bool {
    forall|column: AnyColumn| #[trigger]
        copies_column(placement, column) ==> equality.contains(column)
}

/// The row, inside its region, that the step is about.
pub open spec fn row_of(step: RegionStep) -> usize {
    match step {
        RegionStep::EnableSelector { offset, .. } => offset,
        RegionStep::AdviceFromInstance { offset, .. } => offset,
        RegionStep::CopyAdvice { offset, .. } => offset,
        RegionStep::AdviceSum { offset, .. } => offset,
    }
}

/// A step of the region at position `region` before step `count` is the assignment of `cell`.
pub open spec fn assigned_within(
    steps: Seq<RegionStep>,
    count: int,
    region: usize,
    cell: AssignedCell,
) -> bool {
    exists|k: int|
        0 <= k < count && k < steps.len() && (#[trigger] steps[k]).assigned(region, k as usize)
            == Some(cell)
}

/// A request of `layout` before position `count` holds the assignment of `cell`.
pub open spec fn assigned_before(layout: LayoutView, count: int, cell: AssignedCell) -> bool {
    exists|i: int|
        0 <= i < count && i < layout.placements.len() && match (#[trigger] layout.placements[i]).action {
            ActionView::AssignRegion { steps, .. } => assigned_within(
                steps,
                steps.len() as int,
                i as usize,
                cell,
            ),
            ActionView::ConstrainInstance { .. } => false,
        }
}

/// Every cell that the request at position `i` refers to is assigned before it is used.
pub open spec fn references_resolve(layout: LayoutView, i: int) -> bool {
    match layout.placements[i].action {
        ActionView::AssignRegion { steps, .. } => forall|k: int, cell: AssignedCell|
            0 <= k < steps.len() && #[trigger] refers_to(steps[k], cell) ==> assigned_before(
                layout,
                i,
                cell,
            ) || assigned_within(steps, k, i as usize, cell),
        ActionView::ConstrainInstance { cell, .. } => exists|assigned: AssignedCell|
            assigned.cell == cell && #[trigger] assigned_before(layout, i, assigned),
    }
}

/// The step reads the value that `cell` carries.
pub open spec fn refers_to(step: RegionStep, cell: AssignedCell) -> bool {
    match step {
        RegionStep::EnableSelector { .. } => false,
        RegionStep::AdviceFromInstance { .. } => false,
        RegionStep::CopyAdvice { source, .. } => cell == source,
        RegionStep::AdviceSum { left, right, .. } => cell == left || cell == right,
    }
}

} // verus!
