//! The circuit: the first row, the rows that follow it, and the public output.

use crate::chip::{FibonacciChip, FibonacciConfig};
use crate::plan::{ActionView, Arrangement, AssignedCell, Layout, LayoutView, PlacementView};
use vstd::prelude::*;

verus! {

/// The circuit, with the public values of each of its instance columns.
#[derive(Debug, Clone)]
pub struct FibonacciCircuit<F> {
    pub public_input: Vec<Vec<F>>,
}

impl<F> View for FibonacciCircuit<F> {
    type V = Seq<Seq<F>>;

    open spec fn view(&self) -> Seq<Seq<F>> {
        self.public_input@.map_values(|column: Vec<F>| column@)
    }
}

impl<F> Default for FibonacciCircuit<F> {
    fn default() -> (r: Self)
        ensures
            r@ == Seq::<Seq<F>>::empty(),
    {
        FibonacciCircuit { public_input: Vec::new() }
    }
}

impl FibonacciConfig {
    /// The cell that holds the sum of row `row`, the rows being laid out from position
    /// `base` on.
    pub open spec fn sum_cell(self, base: nat, row: int) -> AssignedCell {
        self.c_cell((base + row) as usize)
    }

    /// The cell that holds the last but one term before row `row`.
    pub open spec fn prev_b(self, base: nat, row: int) -> AssignedCell {
        if row == 1 {
            self.b_cell(base as usize)
        } else {
            self.sum_cell(base, row - 2)
        }
    }

    /// The cell that holds the last term before row `row`.
    pub open spec fn prev_c(self, base: nat, row: int) -> AssignedCell {
        self.sum_cell(base, row - 1)
    }

    /// The first `count` rows of the table, laid out inside `namespaces` from position `base`
    /// on.
    pub open spec fn rows(
        self,
        namespaces: Seq<Seq<char>>,
        base: nat,
        count: nat,
    ) -> Seq<PlacementView> {
        Seq::new(
            count,
            |row: int|
                if row == 0 {
                    PlacementView {
                        namespaces: namespaces.push("first row"@),
                        action: self.first_row(base as usize),
                    }
                } else {
                    PlacementView {
                        namespaces: namespaces.push("next row"@),
                        action: self.next_row(self.prev_b(base, row), self.prev_c(base, row)),
                    }
                },
        )
    }

    /// The request that ties the sum of the last row to the third public value.
    pub open spec fn output(self, namespaces: Seq<Seq<char>>, base: nat) -> PlacementView {
        PlacementView {
            namespaces: namespaces.push("out"@),
            action: ActionView::ConstrainInstance {
                cell: self.sum_cell(base, 7).cell,
                instance: self.instance,
                row: 2,
            },
        }
    }

    /// `layout`, with the table of the circuit and its output added. The namespaces that it
    /// is in stay as they are.
    pub open spec fn laid_out_on(self, layout: LayoutView) -> LayoutView {
        let base = layout.placements.len();
        LayoutView {
            placements: (layout.placements + self.rows(layout.namespaces, base, 8)).push(
                self.output(layout.namespaces, base),
            ),
            ..layout
        }
    }
}

impl<F> FibonacciCircuit<F> {
    /// The circuit without public values, for key generation.
    pub fn without_witnesses(&self) -> (r: Self)
        ensures
            r@ == Seq::<Seq<F>>::empty(),
    {
        Self::default()
    }

    /// Arranges the columns and the addition gate of the circuit.
    pub fn configure(meta: &mut Arrangement) -> (config: FibonacciConfig)
        requires
            old(meta).num_advice_columns <= usize::MAX - 3,
            old(meta).num_instance_columns < usize::MAX,
            old(meta).num_selectors < usize::MAX,
        ensures
            config == FibonacciConfig::next_of(old(meta)@),
            final(meta)@ == config.added_to(old(meta)@),
    {
        FibonacciChip::<F>::configure(meta)
    }

    /// Lays out the table: a row that adds the two public starting terms, seven rows that
    /// each add the two terms before, and the last sum as the third public value.
    pub fn synthesize(&self, config: FibonacciConfig, layouter: &mut Layout)
        ensures
            final(layouter)@ == config.laid_out_on(old(layouter)@),
    {
        let ghost start = layouter@;
        let ghost before = start.placements;
        let ghost base = before.len();
        let ghost outer = start.namespaces;
        let chip = FibonacciChip::<F>::construct(config);

        layouter.enter_namespace("first row");
        let (_, mut prev_b, mut prev_c) = chip.assign_first_row(layouter);
        layouter.leave_namespace();
        assert(layouter@.namespaces == outer);
        assert(layouter@.placements == before + config.rows(outer, base, 1));

        for i in 3usize..10
            invariant
                chip.config() == config,
                base == before.len(),
                layouter@.namespaces == outer,
                layouter@.placements == before + config.rows(outer, base, (i - 2) as nat),
                prev_b == config.prev_b(base, i - 2),
                prev_c == config.prev_c(base, i - 2),
        {
            layouter.enter_namespace("next row");
            let c_cell = chip.assign_row(layouter, &prev_b, &prev_c);
            layouter.leave_namespace();
            assert(layouter@.namespaces == outer);
            assert(layouter@.placements == before + config.rows(outer, base, (i - 1) as nat));
            prev_b = prev_c;
            prev_c = c_cell;
        }

        layouter.enter_namespace("out");
        chip.expose_public(layouter, &prev_c, 2);
        layouter.leave_namespace();
        assert(layouter@ == config.laid_out_on(start));
    }
}

impl<F: Copy> FibonacciCircuit<F> {
    /// The public values, column by column.
    pub fn instances(&self) -> (r: Vec<Vec<F>>)
        ensures
            r@.map_values(|column: Vec<F>| column@) == self@,
    {
        let mut columns: Vec<Vec<F>> = Vec::new();
        for i in 0..self.public_input.len()
            invariant
                columns@.len() == i,
                forall|k: int| 0 <= k < i ==> (#[trigger] columns@[k])@ == self@[k],
        {
            let source = &self.public_input[i];
            let mut column: Vec<F> = Vec::new();
            for j in 0..source.len()
                invariant
                    column@ == source@.take(j as int),
            {
                column.push(source[j]);
                assert(source@.take(j + 1) == source@.take(j as int).push(source@[j as int]));
            }
            assert(column@ == source@);
            columns.push(column);
        }
        columns
    }
}

} // verus!
