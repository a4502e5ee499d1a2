//! The chip: one gate that adds, and the regions that use it.

use crate::plan::{
    ActionView, AdviceColumn, AnyColumn, Arrangement, ArrangementView, AssignedCell, Cell,
    Expression, GateView, InstanceColumn, Layout, RegionStep, Selector,
};
use std::marker::PhantomData;
use vstd::prelude::*;

verus! {

/// The columns and the selector that the circuit uses.
#[derive(Debug, Clone, Copy, PartialEq, Eq, Structural)]
pub struct FibonacciConfig {
    pub col_a: AdviceColumn,
    pub col_b: AdviceColumn,
    pub col_c: AdviceColumn,
    pub selector: Selector,
    pub instance: InstanceColumn,
}

impl FibonacciConfig {
    /// `s * (a + b - c)`, which vanishes on a row where the selector is off, and on one where
    /// it is on only if `c` is the sum of `a` and `b`.
    pub open spec fn add_polynomial(self) -> Expression {
        Expression::Product(
            Box::new(Expression::Selector(self.selector)),
            Box::new(
                Expression::Sum(
                    Box::new(
                        Expression::Sum(
                            Box::new(Expression::Advice(self.col_a)),
                            Box::new(Expression::Advice(self.col_b)),
                        ),
                    ),
                    Box::new(Expression::Negated(Box::new(Expression::Advice(self.col_c)))),
                ),
            ),
        )
    }

    /// The configuration of a chip that takes the next free columns and selector of `meta`.
    pub open spec fn next_of(meta: ArrangementView) -> Self {
        FibonacciConfig {
            col_a: AdviceColumn { index: meta.num_advice_columns as usize },
            col_b: AdviceColumn { index: (meta.num_advice_columns + 1) as usize },
            col_c: AdviceColumn { index: (meta.num_advice_columns + 2) as usize },
            selector: Selector { index: meta.num_selectors as usize },
            instance: InstanceColumn { index: meta.num_instance_columns as usize },
        }
    }

    /// `meta`, with the columns, the selector, the equality and the addition gate of this
    /// configuration added.
    pub open spec fn added_to(self, meta: ArrangementView) -> ArrangementView {
        ArrangementView {
            num_advice_columns: meta.num_advice_columns + 3,
            num_instance_columns: meta.num_instance_columns + 1,
            num_selectors: meta.num_selectors + 1,
            equality: meta.equality + seq![
                AnyColumn::Advice(self.col_a),
                AnyColumn::Advice(self.col_b),
                AnyColumn::Advice(self.col_c),
                AnyColumn::Instance(self.instance),
            ],
            gates: meta.gates.push(
                GateView { name: "add"@, polys: seq![self.add_polynomial()] },
            ),
        }
    }

    /// The cell of `col_a` in the row that is laid out at position `region`.
    pub open spec fn a_cell(self, region: usize) -> AssignedCell {
        AssignedCell { cell: Cell { region, column: self.col_a, offset: 0 }, step: 1 }
    }

    /// The cell of `col_b` in the row that is laid out at position `region`.
    pub open spec fn b_cell(self, region: usize) -> AssignedCell {
        AssignedCell { cell: Cell { region, column: self.col_b, offset: 0 }, step: 2 }
    }

    /// The cell of `col_c` in the row that is laid out at position `region`.
    pub open spec fn c_cell(self, region: usize) -> AssignedCell {
        AssignedCell { cell: Cell { region, column: self.col_c, offset: 0 }, step: 3 }
    }

    /// The region, to stand at position `region`, that takes the two starting terms from the
    /// public values and adds them.
    pub open spec fn first_row(self, region: usize) -> ActionView {
        ActionView::AssignRegion {
            name: "first row"@,
            steps: seq![
                RegionStep::EnableSelector { selector: self.selector, offset: 0 },
                RegionStep::AdviceFromInstance {
                    annotation: "f(0)",
                    instance: self.instance,
                    row: 0,
                    advice: self.col_a,
                    offset: 0,
                },
                RegionStep::AdviceFromInstance {
                    annotation: "f(1)",
                    instance: self.instance,
                    row: 1,
                    advice: self.col_b,
                    offset: 0,
                },
                RegionStep::AdviceSum {
                    annotation: "a + b",
                    left: self.a_cell(region),
                    right: self.b_cell(region),
                    advice: self.col_c,
                    offset: 0,
                },
            ],
        }
    }

    /// The region that copies two terms and adds them.
    pub open spec fn next_row(self, prev_b: AssignedCell, prev_c: AssignedCell) -> ActionView {
        ActionView::AssignRegion {
            name: "next row"@,
            steps: seq![
                RegionStep::EnableSelector { selector: self.selector, offset: 0 },
                RegionStep::CopyAdvice {
                    annotation: "a",
                    source: prev_b,
                    advice: self.col_a,
                    offset: 0,
                },
                RegionStep::CopyAdvice {
                    annotation: "b",
                    source: prev_c,
                    advice: self.col_b,
                    offset: 0,
                },
                RegionStep::AdviceSum {
                    annotation: "c",
                    left: prev_b,
                    right: prev_c,
                    advice: self.col_c,
                    offset: 0,
                },
            ],
        }
    }
}

/// The chip, for values of type `F`.
#[derive(Debug)]
pub struct FibonacciChip<F> {
    config: FibonacciConfig,
    _marker: PhantomData<F>,
}

impl<F> Clone for FibonacciChip<F> {
    fn clone(&self) -> (r: Self)
        ensures
            r == *self,
    {
        FibonacciChip { config: self.config, _marker: PhantomData }
    }
}

impl<F> FibonacciChip<F> {
    /// The configuration that the chip was made with.
    pub closed spec fn config(self) -> FibonacciConfig {
        self.config
    }

    /// A chip with the given configuration.
    pub fn construct(config: FibonacciConfig) -> (chip: Self)
        ensures
            chip.config() == config,
    {
        FibonacciChip { config, _marker: PhantomData }
    }

    /// Takes three advice columns, a selector and an instance column from `meta`, lets the
    /// cells of these columns be copied, and adds the addition gate.
    pub fn configure(meta: &mut Arrangement) -> (config: FibonacciConfig)
        requires
            old(meta).num_advice_columns <= usize::MAX - 3,
            old(meta).num_instance_columns < usize::MAX,
            old(meta).num_selectors < usize::MAX,
        ensures
            config == FibonacciConfig::next_of(old(meta)@),
            final(meta)@ == config.added_to(old(meta)@),
    {
        let ghost before = meta@;
        let col_a = meta.advice_column();
        let col_b = meta.advice_column();
        let col_c = meta.advice_column();
        let selector = meta.selector();
        let instance = meta.instance_column();

        // Equality has a cost, so it is enabled only where cells are copied.
        meta.enable_equality(AnyColumn::Advice(col_a));
        meta.enable_equality(AnyColumn::Advice(col_b));
        meta.enable_equality(AnyColumn::Advice(col_c));
        meta.enable_equality(AnyColumn::Instance(instance));

        // A gate applies to every row; the selector says on which rows it counts.
        //
        // col_a | col_b | col_c | selector
        //   a   |   b   |   c   |    s
        let s = Expression::Selector(selector);
        let a = Expression::Advice(col_a);
        let b = Expression::Advice(col_b);
        let c = Expression::Advice(col_c);
        let difference = Expression::Sum(
            Box::new(Expression::Sum(Box::new(a), Box::new(b))),
            Box::new(Expression::Negated(Box::new(c))),
        );
        let mut polys: Vec<Expression> = Vec::new();
        polys.push(Expression::Product(Box::new(s), Box::new(difference)));
        let config = FibonacciConfig { col_a, col_b, col_c, selector, instance };
        assert(polys@ == seq![config.add_polynomial()]);
        meta.create_gate("add", polys);
        assert(meta@ == config.added_to(before));
        config
    }

    /// Lays out the first row: the terms `f(0)` and `f(1)` from the public values, and their
    /// sum. Returns the three cells.
    pub fn assign_first_row(&self, layouter: &mut Layout) -> (cells: (
        AssignedCell,
        AssignedCell,
        AssignedCell,
    ))
        ensures
            ({
                let region = old(layouter)@.placements.len() as usize;
                &&& cells.0 == self.config().a_cell(region)
                &&& cells.1 == self.config().b_cell(region)
                &&& cells.2 == self.config().c_cell(region)
                &&& final(layouter)@ == old(layouter)@.place(self.config().first_row(region))
            }),
    {
        let config = self.config;
        let region: usize = layouter.next_region();
        let a_cell = AssignedCell {
            cell: Cell { region, column: config.col_a, offset: 0 },
            step: 1,
        };
        let b_cell = AssignedCell {
            cell: Cell { region, column: config.col_b, offset: 0 },
            step: 2,
        };
        let c_cell = AssignedCell {
            cell: Cell { region, column: config.col_c, offset: 0 },
            step: 3,
        };

        let mut steps: Vec<RegionStep> = Vec::new();
        steps.push(RegionStep::EnableSelector { selector: config.selector, offset: 0 });
        steps.push(
            RegionStep::AdviceFromInstance {
                annotation: "f(0)",
                instance: config.instance,
                row: 0,
                advice: config.col_a,
                offset: 0,
            },
        );
        steps.push(
            RegionStep::AdviceFromInstance {
                annotation: "f(1)",
                instance: config.instance,
                row: 1,
                advice: config.col_b,
                offset: 0,
            },
        );
        steps.push(
            RegionStep::AdviceSum {
                annotation: "a + b",
                left: a_cell,
                right: b_cell,
                advice: config.col_c,
                offset: 0,
            },
        );
        assert(steps@ == self.config().first_row(region)->steps);
        layouter.assign_region("first row", steps);
        (a_cell, b_cell, c_cell)
    }

    /// Lays out one more row, which copies the last two terms and adds them. Returns the
    /// cell of the sum.
    pub fn assign_row(
        &self,
        layouter: &mut Layout,
        prev_b: &AssignedCell,
        prev_c: &AssignedCell,
    ) -> (c_cell: AssignedCell)
        ensures
            c_cell == self.config().c_cell(old(layouter)@.placements.len() as usize),
            final(layouter)@ == old(layouter)@.place(self.config().next_row(*prev_b, *prev_c)),
    {
        let config = self.config;
        let region: usize = layouter.next_region();

        let mut steps: Vec<RegionStep> = Vec::new();
        steps.push(RegionStep::EnableSelector { selector: config.selector, offset: 0 });
        // Copy b and c of the previous row to a and b of this one.
        steps.push(
            RegionStep::CopyAdvice {
                annotation: "a",
                source: *prev_b,
                advice: config.col_a,
                offset: 0,
            },
        );
        steps.push(
            RegionStep::CopyAdvice {
                annotation: "b",
                source: *prev_c,
                advice: config.col_b,
                offset: 0,
            },
        );
        steps.push(
            RegionStep::AdviceSum {
                annotation: "c",
                left: *prev_b,
                right: *prev_c,
                advice: config.col_c,
                offset: 0,
            },
        );
        assert(steps@ == self.config().next_row(*prev_b, *prev_c)->steps);
        layouter.assign_region("next row", steps);
        AssignedCell { cell: Cell { region, column: config.col_c, offset: 0 }, step: 3 }
    }

    /// Ties `cell` to the public value at `row`.
    pub fn expose_public(&self, layouter: &mut Layout, cell: &AssignedCell, row: usize)
        ensures
            final(layouter)@ == old(layouter)@.place(
                ActionView::ConstrainInstance {
                    cell: cell.cell,
                    instance: self.config().instance,
                    row,
                },
            ),
    {
        layouter.constrain_instance(cell.cell, self.config.instance, row);
    }
}

} // verus!
