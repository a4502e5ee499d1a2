//! What the circuit proves.

use crate::chip::{FibonacciChip, FibonacciConfig};
use crate::circuit::FibonacciCircuit;
use crate::constraints::{
    advice_at, after_steps, assigned_before, assigned_within, copies_are_enabled, copies_column,
    equality_holds, gates_vanish, last_assignment, placement_holds, public_value, read_by, references_resolve,
    refers_to, replayed, replayed_values, row_of, satisfiable, satisfies, selectors_at,
    step_copies_column,
};
use crate::field::{law_scalar_is_its_number, modulus, Scalar};
use crate::plan::{
    AdviceColumn, AnyColumn, Arrangement, ArrangementView, AssignedCell, Cell, Expression, GateView,
    LayoutView, RegionStep, Selector,
};
use crate::protocol::{
    claimed_output, column_values, generates, is_public_input, judges, numbers, FibonacciError,
};
use vstd::arithmetic::div_mod::{
    lemma_fundamental_div_mod, lemma_fundamental_div_mod_converse, lemma_mod_twice,
    lemma_small_mod, lemma_sub_mod_noop,
};
use vstd::arithmetic::mul::lemma_mul_basics;
use vstd::prelude::*;

verus! {

/// The term with index `n` of the sequence that starts with `first` and `second`, and in
/// which each further term is the sum of the two before it, modulo `p`.
pub open spec fn term(p: nat, first: nat, second: nat, n: nat) -> nat
    decreases n,
{
    if n == 0 {
        first
    } else if n == 1 {
        second
    } else {
        (term(p, first, second, (n - 2) as nat) + term(p, first, second, (n - 1) as nat)) % p
    }
}

/// The polynomial of the addition gate, spelled out.
pub(crate) proof fn lemma_add_polynomial(
    config: FibonacciConfig,
    selectors: spec_fn(Selector) -> int,
    advice: spec_fn(AdviceColumn) -> int,
)
    ensures
        config.add_polynomial().evaluate(selectors, advice) == selectors(config.selector) * (advice(
            config.col_a,
        ) + advice(config.col_b) - advice(config.col_c)),
{
    reveal_with_fuel(Expression::evaluate, 5);
}

/// On a row where the selector is on, the addition gate says that `c` is the sum of `a` and `b`.
proof fn lemma_gate_adds(
    config: FibonacciConfig,
    gates: Seq<GateView>,
    region: usize,
    steps: Seq<RegionStep>,
    values: spec_fn(Cell) -> nat,
    p: nat,
)
    requires
        p > 0,
        forall|cell: Cell| #[trigger] values(cell) < p,
        gates.len() > 0,
        gates.last().polys == seq![config.add_polynomial()],
        steps.contains(RegionStep::EnableSelector { selector: config.selector, offset: 0 }),
        gates_vanish(gates, region, steps, 0, values, p),
    ensures
        values(Cell { region, column: config.col_c, offset: 0 }) == (values(
            Cell { region, column: config.col_a, offset: 0 },
        ) + values(Cell { region, column: config.col_b, offset: 0 })) % p,
{
    let a = values(Cell { region, column: config.col_a, offset: 0 }) as int;
    let b = values(Cell { region, column: config.col_b, offset: 0 }) as int;
    let c = values(Cell { region, column: config.col_c, offset: 0 }) as int;
    let poly = gates[gates.len() - 1].polys[0];
    lemma_add_polynomial(config, selectors_at(steps, 0), advice_at(values, region, 0));
    lemma_mul_basics(a + b - c);
    assert(poly.evaluate(selectors_at(steps, 0), advice_at(values, region, 0)) == a + b - c);
    assert((a + b - c) % (p as int) == 0);
    let quotient = (a + b - c) / (p as int);
    lemma_fundamental_div_mod(a + b - c, p as int);
    assert(a + b == quotient * (p as int) + c) by (nonlinear_arith)
        requires
            a + b - c == (p as int) * quotient + 0,
    ;
    lemma_fundamental_div_mod_converse(a + b, p as int, quotient, c);
}

/// What the constraints of row `row` say: the first row holds the starting terms, each further
/// row copies two terms from the rows before it, and every row adds its two terms.
proof fn lemma_row_constraints(
    config: FibonacciConfig,
    meta: ArrangementView,
    before: LayoutView,
    values: spec_fn(Cell) -> nat,
    public: Seq<Seq<nat>>,
    p: nat,
    row: nat,
)
    requires
        p > 0,
        satisfies(values, config.added_to(meta), config.laid_out_on(before), public, p),
        row < 8,
    ensures
        ({
            let base = before.placements.len();
            let region = (base + row) as usize;
            let a = values(config.a_cell(region).cell);
            let b = values(config.b_cell(region).cell);
            let c = values(config.c_cell(region).cell);
            &&& c == (a + b) % p
            &&& row == 0 ==> a == public_value(public, config.instance, 0)
            &&& row == 0 ==> b == public_value(public, config.instance, 1)
            &&& row > 0 ==> a == values(config.prev_b(base, row as int).cell)
            &&& row > 0 ==> b == values(config.prev_c(base, row as int).cell)
        }),
{
    let base = before.placements.len();
    let layout = config.laid_out_on(before);
    let gates = config.added_to(meta).gates;
    let region = (base + row) as usize;
    let placement = layout.placements[(base + row) as int];
    assert(placement == config.rows(before.namespaces, base, 8)[row as int]);
    assert(placement_holds(gates, placement, region, values, public, p));
    let steps = placement.action->steps;
    assert(steps[0] == RegionStep::EnableSelector { selector: config.selector, offset: 0 });
    assert(gates_vanish(gates, region, steps, 0, values, p));
    lemma_gate_adds(config, gates, region, steps, values, p);
    assert(equality_holds(steps[1], region, values, public));
    assert(equality_holds(steps[2], region, values, public));
}

/// The public values determine the table: in all values that satisfy the circuit, row `row`
/// holds the terms with the indices `row`, `row + 1` and `row + 2`.
pub proof fn law_rows_hold_terms(
    config: FibonacciConfig,
    meta: ArrangementView,
    before: LayoutView,
    values: spec_fn(Cell) -> nat,
    public: Seq<Seq<nat>>,
    p: nat,
    row: nat,
)
    requires
        p > 0,
        satisfies(values, config.added_to(meta), config.laid_out_on(before), public, p),
        row < 8,
    ensures
        ({
            let region = (before.placements.len() + row) as usize;
            let first = public_value(public, config.instance, 0);
            let second = public_value(public, config.instance, 1);
            &&& values(Cell { region, column: config.col_a, offset: 0 }) == term(
                p,
                first,
                second,
                row,
            )
            &&& values(Cell { region, column: config.col_b, offset: 0 }) == term(
                p,
                first,
                second,
                row + 1,
            )
            &&& values(Cell { region, column: config.col_c, offset: 0 }) == term(
                p,
                first,
                second,
                row + 2,
            )
        }),
    decreases row,
{
    let base = before.placements.len();
    let region = (base + row) as usize;
    let first = public_value(public, config.instance, 0);
    let second = public_value(public, config.instance, 1);
    lemma_row_constraints(config, meta, before, values, public, p, row);
    if row > 0 {
        law_rows_hold_terms(config, meta, before, values, public, p, (row - 1) as nat);
        let last = config.c_cell((base + (row - 1)) as usize);
        assert(config.prev_c(base, row as int) == last);
        assert(values(last.cell) == term(p, first, second, row + 1));
        if row == 1 {
            let last_but_one = config.b_cell((base + 0) as usize);
            assert(config.prev_b(base, row as int) == last_but_one);
            assert(values(last_but_one.cell) == term(p, first, second, row));
        } else {
            law_rows_hold_terms(config, meta, before, values, public, p, (row - 2) as nat);
            let last_but_one = config.c_cell((base + (row - 2)) as usize);
            assert(config.prev_b(base, row as int) == last_but_one);
            assert(values(last_but_one.cell) == term(p, first, second, row));
        }
    }
    assert(values(config.a_cell(region).cell) == term(p, first, second, row));
    assert(values(config.b_cell(region).cell) == term(p, first, second, row + 1));
    assert(values(config.c_cell(region).cell) == term(p, first, second, row + 2));
}

/// Soundness: whatever else is arranged and laid out around the circuit, its constraints can
/// hold only if the third public value is the term with index nine of the sequence that
/// starts with the first two.
pub proof fn law_output_is_ninth_term(
    config: FibonacciConfig,
    meta: ArrangementView,
    before: LayoutView,
    values: spec_fn(Cell) -> nat,
    public: Seq<Seq<nat>>,
    p: nat,
)
    requires
        p > 0,
        satisfies(values, config.added_to(meta), config.laid_out_on(before), public, p),
    ensures
        public_value(public, config.instance, 2) == term(
            p,
            public_value(public, config.instance, 0),
            public_value(public, config.instance, 1),
            9,
        ),
{
    let base = before.placements.len();
    let layout = config.laid_out_on(before);
    law_rows_hold_terms(config, meta, before, values, public, p, 7);
    let placement = layout.placements[(base + 8) as int];
    assert(placement == config.output(before.namespaces, base));
    assert(placement_holds(
        config.added_to(meta).gates,
        placement,
        (base + 8) as usize,
        values,
        public,
        p,
    ));
}

/// The configuration of a circuit that has the constraint system to itself.
pub open spec fn own_config() -> FibonacciConfig {
    FibonacciConfig::next_of(ArrangementView::empty())
}

/// All that such a circuit arranges.
pub open spec fn own_arrangement() -> ArrangementView {
    own_config().added_to(ArrangementView::empty())
}

/// All that such a circuit lays out.
pub open spec fn own_layout() -> LayoutView {
    own_config().laid_out_on(LayoutView::empty())
}

/// The first `count` rows of the table, filled with consecutive terms.
pub open spec fn table(public: Seq<Seq<nat>>, p: nat, count: nat) -> spec_fn(
    AssignedCell,
) -> Option<nat> {
    let config = own_config();
    let first = public_value(public, config.instance, 0);
    let second = public_value(public, config.instance, 1);
    |cell: AssignedCell|
        {
            let region = cell.cell.region;
            if region >= count {
                None
            } else if cell == config.a_cell(region) {
                Some(term(p, first, second, region as nat))
            } else if cell == config.b_cell(region) {
                Some(term(p, first, second, region as nat + 1))
            } else if cell == config.c_cell(region) {
                Some(term(p, first, second, region as nat + 2))
            } else {
                None
            }
        }
}

/// What the four steps of a row assign.
pub(crate) proof fn lemma_row_assigns(
    steps: Seq<RegionStep>,
    region: usize,
    before: spec_fn(AssignedCell) -> Option<nat>,
    public: Seq<Seq<nat>>,
    p: nat,
    a: (AssignedCell, nat),
    b: (AssignedCell, nat),
    c: (AssignedCell, nat),
)
    requires
        steps.len() == 4,
        steps[0] is EnableSelector,
        steps[1].assigned(region, 1) == Some(a.0),
        steps[2].assigned(region, 2) == Some(b.0),
        steps[3].assigned(region, 3) == Some(c.0),
        forall|values: spec_fn(AssignedCell) -> Option<nat>|
            (forall|cell: AssignedCell|
                cell.cell.region != region ==> #[trigger] values(cell) == before(cell))
                ==> #[trigger] steps[1].value(values, read_by(steps[1], public), p) == Some(a.1),
        forall|values: spec_fn(AssignedCell) -> Option<nat>|
            (forall|cell: AssignedCell|
                cell.cell.region != region ==> #[trigger] values(cell) == before(cell))
                ==> #[trigger] steps[2].value(values, read_by(steps[2], public), p) == Some(b.1),
        forall|values: spec_fn(AssignedCell) -> Option<nat>|
            (forall|cell: AssignedCell|
                cell.cell.region != region ==> #[trigger] values(cell) == before(cell)) && values(a.0)
                == Some(a.1) && values(b.0) == Some(b.1) ==> #[trigger] steps[3].value(
                values,
                read_by(steps[3], public),
                p,
            ) == Some(c.1),
    ensures
        after_steps(steps, 4, region, before, public, p) == |cell: AssignedCell|
            if cell == a.0 {
                Some(a.1)
            } else if cell == b.0 {
                Some(b.1)
            } else if cell == c.0 {
                Some(c.1)
            } else {
                before(cell)
            },
{
    let done_1 = after_steps(steps, 1, region, before, public, p);
    let done_2 = after_steps(steps, 2, region, before, public, p);
    let done_3 = after_steps(steps, 3, region, before, public, p);
    let done_4 = after_steps(steps, 4, region, before, public, p);
    reveal_with_fuel(after_steps, 2);
    assert(done_1 =~= before);
    assert(done_2 =~= |cell: AssignedCell|
        if cell == a.0 {
            Some(a.1)
        } else {
            before(cell)
        });
    assert(done_3 =~= |cell: AssignedCell|
        if cell == b.0 {
            Some(b.1)
        } else {
            done_2(cell)
        });
    assert(done_4 =~= |cell: AssignedCell|
        if cell == c.0 {
            Some(c.1)
        } else {
            done_3(cell)
        });
    assert(done_4 =~= |cell: AssignedCell|
        if cell == a.0 {
            Some(a.1)
        } else if cell == b.0 {
            Some(b.1)
        } else if cell == c.0 {
            Some(c.1)
        } else {
            before(cell)
        });
}

/// Replaying the rows fills the table.
proof fn lemma_replay_fills_table(public: Seq<Seq<nat>>, p: nat, count: nat)
    requires
        count <= 8,
    ensures
        replayed(own_layout(), count, public, p) == table(public, p, count),
    decreases count,
{
    if count == 0 {
        assert(replayed(own_layout(), 0, public, p) =~= table(public, p, 0));
    } else {
        let config = own_config();
        let row = (count - 1) as nat;
        lemma_replay_fills_table(public, p, row);
        let before = table(public, p, row);
        let placement = own_layout().placements[row as int];
        assert(placement == config.rows(Seq::empty(), 0, 8)[row as int]);
        let steps = placement.action->steps;
        let region = row as usize;
        let first = public_value(public, config.instance, 0);
        let second = public_value(public, config.instance, 1);
        let a = (config.a_cell(region), term(p, first, second, row));
        let b = (config.b_cell(region), term(p, first, second, row + 1));
        let c = (config.c_cell(region), term(p, first, second, row + 2));
        lemma_row_assigns(steps, region, before, public, p, a, b, c);
        assert(after_steps(steps, 4, region, before, public, p) =~= table(public, p, count));
    }
}

/// What a cell holds once the circuit is replayed.
proof fn lemma_replayed_value(public: Seq<Seq<nat>>, p: nat, cell: Cell)
    ensures
        ({
            let config = own_config();
            let first = public_value(public, config.instance, 0);
            let second = public_value(public, config.instance, 1);
            let row = cell.region as nat;
            replayed_values(own_layout(), public, p)(cell) == if row >= 8 || cell.offset != 0 {
                0
            } else if cell.column == config.col_a {
                term(p, first, second, row)
            } else if cell.column == config.col_b {
                term(p, first, second, row + 1)
            } else if cell.column == config.col_c {
                term(p, first, second, row + 2)
            } else {
                0
            }
        }),
{
    let config = own_config();
    let layout = own_layout();
    lemma_replay_fills_table(public, p, 8);
    assert(layout.placements.len() == 9);
    assert(layout.placements[8] == config.output(Seq::empty(), 0));
    assert(replayed(layout, 9, public, p) == table(public, p, 8));
    if cell.region < 8 {
        let placement = layout.placements[cell.region as int];
        assert(placement == config.rows(Seq::empty(), 0, 8)[cell.region as int]);
        reveal_with_fuel(last_assignment, 5);
    }
}

/// All terms are elements of the field if the first two are.
pub(crate) proof fn lemma_term_in_field(p: nat, first: nat, second: nat, n: nat)
    requires
        first < p,
        second < p,
    ensures
        term(p, first, second, n) < p,
{
}

/// In a region of the circuit, the polynomial of the addition gate vanishes on every row if the
/// sum is right.
pub(crate) proof fn lemma_addition_vanishes(
    config: FibonacciConfig,
    region: usize,
    steps: Seq<RegionStep>,
    offset: usize,
    values: spec_fn(Cell) -> nat,
    p: nat,
)
    requires
        p > 0,
        forall|k: int|
            0 <= k < steps.len() ==> ((#[trigger] steps[k]) matches RegionStep::EnableSelector {
                offset,
                ..
            } ==> offset == 0),
        values(Cell { region, column: config.col_c, offset: 0 }) == (values(
            Cell { region, column: config.col_a, offset: 0 },
        ) + values(Cell { region, column: config.col_b, offset: 0 })) % p,
    ensures
        config.add_polynomial().evaluate(
            selectors_at(steps, offset),
            advice_at(values, region, offset),
        ) % (p as int) == 0,
{
    let a = values(Cell { region, column: config.col_a, offset }) as int;
    let b = values(Cell { region, column: config.col_b, offset }) as int;
    let c = values(Cell { region, column: config.col_c, offset }) as int;
    let selectors = selectors_at(steps, offset);
    let advice = advice_at(values, region, offset);
    lemma_add_polynomial(config, selectors, advice);
    lemma_mul_basics(a + b - c);
    lemma_small_mod(0, p);
    if selectors(config.selector) == 1 {
        let enabled = RegionStep::EnableSelector { selector: config.selector, offset };
        let k = choose|k: int| 0 <= k < steps.len() && steps[k] == enabled;
        assert(steps[k] == enabled);
        assert(offset == 0);
        lemma_sub_mod_noop(a + b, c, p as int);
        lemma_mod_twice(a + b, p as int);
        assert((a + b - c) % (p as int) == 0);
    } else {
        assert(selectors(config.selector) == 0);
    }
}

/// In a region of the circuit, the addition gate vanishes on every row if the sum is right.
proof fn lemma_gates_vanish(
    config: FibonacciConfig,
    gates: Seq<GateView>,
    region: usize,
    steps: Seq<RegionStep>,
    offset: usize,
    values: spec_fn(Cell) -> nat,
    p: nat,
)
    requires
        p > 0,
        gates.len() == 1,
        gates[0].polys == seq![config.add_polynomial()],
        forall|k: int|
            0 <= k < steps.len() ==> ((#[trigger] steps[k]) matches RegionStep::EnableSelector {
                offset,
                ..
            } ==> offset == 0),
        values(Cell { region, column: config.col_c, offset: 0 }) == (values(
            Cell { region, column: config.col_a, offset: 0 },
        ) + values(Cell { region, column: config.col_b, offset: 0 })) % p,
    ensures
        gates_vanish(gates, region, steps, offset, values, p),
{
    lemma_addition_vanishes(config, region, steps, offset, values, p);
    assert forall|g: int, k: int|
        0 <= g < gates.len() && 0 <= k < gates[g].polys.len() implies (
    #[trigger] gates[g].polys[k]).evaluate(
        selectors_at(steps, offset),
        advice_at(values, region, offset),
    ) % (p as int) == 0 by {
        assert(gates[g].polys[k] == config.add_polynomial());
    }
}

/// The values that a replay assigns satisfy all regions of the circuit.
proof fn lemma_replay_satisfies_row(public: Seq<Seq<nat>>, p: nat, row: nat)
    requires
        public_value(public, own_config().instance, 0) < p,
        public_value(public, own_config().instance, 1) < p,
        row < 8,
    ensures
        placement_holds(
            own_arrangement().gates,
            own_layout().placements[row as int],
            row as usize,
            replayed_values(own_layout(), public, p),
            public,
            p,
        ),
{
    let config = own_config();
    let values = replayed_values(own_layout(), public, p);
    let placement = own_layout().placements[row as int];
    assert(placement == config.rows(Seq::empty(), 0, 8)[row as int]);
    let steps = placement.action->steps;
    let region = row as usize;
    lemma_replayed_value(public, p, config.a_cell(region).cell);
    lemma_replayed_value(public, p, config.b_cell(region).cell);
    lemma_replayed_value(public, p, config.c_cell(region).cell);
    if row > 0 {
        lemma_replayed_value(public, p, config.prev_b(0, row as int).cell);
        lemma_replayed_value(public, p, config.prev_c(0, row as int).cell);
    }
    assert forall|offset: usize|
        #[trigger] gates_vanish(
            own_arrangement().gates,
            region,
            steps,
            offset,
            values,
            p,
        ) by {
        lemma_gates_vanish(config, own_arrangement().gates, region, steps, offset, values, p);
    }
    assert forall|k: int| 0 <= k < steps.len() implies equality_holds(
        #[trigger] steps[k],
        region,
        values,
        public,
    ) by {}
}

/// Completeness: the values that a replay assigns satisfy the circuit whenever the third
/// public value is the term with index nine, and only then.
pub proof fn law_replay_satisfies(public: Seq<Seq<nat>>, p: nat)
    requires
        public_value(public, own_config().instance, 0) < p,
        public_value(public, own_config().instance, 1) < p,
    ensures
        satisfies(
            replayed_values(own_layout(), public, p),
            own_arrangement(),
            own_layout(),
            public,
            p,
        ) <==> public_value(public, own_config().instance, 2) == term(
            p,
            public_value(public, own_config().instance, 0),
            public_value(public, own_config().instance, 1),
            9,
        ),
{
    let config = own_config();
    let layout = own_layout();
    let values = replayed_values(layout, public, p);
    let first = public_value(public, config.instance, 0);
    let second = public_value(public, config.instance, 1);
    if satisfies(values, own_arrangement(), layout, public, p) {
        law_output_is_ninth_term(
            config,
            ArrangementView::empty(),
            LayoutView::empty(),
            values,
            public,
            p,
        );
    }
    if public_value(public, config.instance, 2) == term(p, first, second, 9) {
        assert(layout.placements.len() == 9);
        assert(layout.placements[8] == config.output(Seq::empty(), 0));
        lemma_replayed_value(public, p, config.sum_cell(0, 7).cell);
        assert forall|cell: Cell| #[trigger] values(cell) < p by {
            lemma_replayed_value(public, p, cell);
            lemma_term_in_field(p, first, second, cell.region as nat);
            lemma_term_in_field(p, first, second, cell.region as nat + 1);
            lemma_term_in_field(p, first, second, cell.region as nat + 2);
        }
        assert forall|i: int| 0 <= i < layout.placements.len() implies placement_holds(
            own_arrangement().gates,
            #[trigger] layout.placements[i],
            i as usize,
            values,
            public,
            p,
        ) by {
            if i < 8 {
                lemma_replay_satisfies_row(public, p, i as nat);
            }
        }
    }
}

/// The circuit can be satisfied exactly for the public values whose third is the term with
/// index nine of the sequence that starts with the first two.
pub proof fn law_satisfiable(public: Seq<Seq<nat>>, p: nat)
    requires
        public_value(public, own_config().instance, 0) < p,
        public_value(public, own_config().instance, 1) < p,
    ensures
        satisfiable(own_arrangement(), own_layout(), public, p) <==> public_value(
            public,
            own_config().instance,
            2,
        ) == term(
            p,
            public_value(public, own_config().instance, 0),
            public_value(public, own_config().instance, 1),
            9,
        ),
{
    law_replay_satisfies(public, p);
    if satisfiable(own_arrangement(), own_layout(), public, p) {
        let values = choose|values: spec_fn(Cell) -> nat|
            #[trigger] satisfies(values, own_arrangement(), own_layout(), public, p);
        law_output_is_ninth_term(
            own_config(),
            ArrangementView::empty(),
            LayoutView::empty(),
            values,
            public,
            p,
        );
    }
}

/// Where both starting terms are one, the term with index nine is fifty-five in a field that is
/// large enough.
proof fn lemma_ninth_term_of_ones(p: nat)
    requires
        p > 55,
    ensures
        term(p, 1, 1, 9) == 55,
{
    lemma_small_mod(2, p);
    lemma_small_mod(3, p);
    lemma_small_mod(5, p);
    lemma_small_mod(8, p);
    lemma_small_mod(13, p);
    lemma_small_mod(21, p);
    lemma_small_mod(34, p);
    lemma_small_mod(55, p);
    assert(term(p, 1, 1, 0) == 1);
    assert(term(p, 1, 1, 1) == 1);
    assert(term(p, 1, 1, 2) == 2);
    assert(term(p, 1, 1, 3) == 3);
    assert(term(p, 1, 1, 4) == 5);
    assert(term(p, 1, 1, 5) == 8);
    assert(term(p, 1, 1, 6) == 13);
    assert(term(p, 1, 1, 7) == 21);
    assert(term(p, 1, 1, 8) == 34);
}

/// With both starting terms one, the only output that can be proved is fifty-five.
pub proof fn law_output_of_ones(output: nat)
    ensures
        satisfiable(
            own_arrangement(),
            own_layout(),
            seq![seq![1nat, 1nat, output]],
            modulus(),
        ) <==> output == 55,
{
    law_satisfiable(seq![seq![1nat, 1nat, output]], modulus());
    lemma_ninth_term_of_ones(modulus());
}

/// The public values that are handed to a prover can be proved exactly if the claimed output
/// is fifty-five.
pub proof fn law_provable_claim(public: Seq<Scalar>, out: Scalar)
    requires
        is_public_input(public, out),
    ensures
        satisfiable(own_arrangement(), own_layout(), numbers(seq![public]), modulus()) <==> out@
            == 55,
{
    assert(numbers(seq![public]) =~~= seq![seq![1nat, 1nat, out@]]);
    law_output_of_ones(out@);
}

/// `columns` have the shape of the circuit's public values: one column, with the two starting
/// terms and the output.
pub open spec fn is_claim(columns: Seq<Seq<Scalar>>) -> bool {
    &&& columns.len() == 1
    &&& columns[0].len() == 3
}

/// `verify` accepts a proof that `prove` made for a claim, with the public values that it was
/// made for, exactly if the circuit can be satisfied for them.
pub open spec fn is_proof_system<
    P: Fn(&FibonacciCircuit<Scalar>) -> Vec<u8>,
    V: Fn(&Vec<u8>, &Vec<Vec<Scalar>>) -> Result<(), String>,
>(prove: P, verify: V) -> bool {
    forall|
        circuit: FibonacciCircuit<Scalar>,
        bytes: Vec<u8>,
        columns: Vec<Vec<Scalar>>,
        answer: Result<(), String>,
    |
        #[trigger] call_ensures(prove, (&circuit,), bytes) && #[trigger] call_ensures(
            verify,
            (&bytes, &columns),
            answer,
        ) && is_claim(circuit@) && column_values(columns@) == circuit@ ==> (answer is Ok
            <==> satisfiable(own_arrangement(), own_layout(), numbers(circuit@), modulus()))
}

/// A round trip: on a proof system, a generated proof is verified for its public values exactly
/// if the claimed output is fifty-five, and refused with an error otherwise.
pub proof fn law_round_trip<
    P: Fn(&FibonacciCircuit<Scalar>) -> Vec<u8>,
    V: Fn(&Vec<u8>, &Vec<Vec<Scalar>>) -> Result<(), String>,
>(
    inputs: Map<String, Vec<Scalar>>,
    prove: P,
    verify: V,
    bytes: Vec<u8>,
    public: Vec<Scalar>,
    r: Result<bool, FibonacciError>,
)
    requires
        is_proof_system(prove, verify),
        generates(inputs, prove, Ok((bytes, public))),
        judges(bytes, public@, verify, r),
    ensures
        claimed_output(inputs) matches Some(out) && if out@ == 55 {
            r == Ok::<bool, FibonacciError>(true)
        } else {
            r is Err
        },
{
    let out = claimed_output(inputs)->0;
    law_provable_claim(public@, out);
}

/// `verify` refuses a proof that `prove` made for one claim as a proof of any other claim.
pub open spec fn binds_proofs<
    P: Fn(&FibonacciCircuit<Scalar>) -> Vec<u8>,
    V: Fn(&Vec<u8>, &Vec<Vec<Scalar>>) -> Result<(), String>,
>(prove: P, verify: V) -> bool {
    forall|
        circuit: FibonacciCircuit<Scalar>,
        bytes: Vec<u8>,
        columns: Vec<Vec<Scalar>>,
        answer: Result<(), String>,
    |
        #[trigger] call_ensures(prove, (&circuit,), bytes) && #[trigger] call_ensures(
            verify,
            (&bytes, &columns),
            answer,
        ) && is_claim(circuit@) && is_claim(column_values(columns@)) && column_values(columns@)
            != circuit@ ==> answer is Err
}

/// On a proof system that binds its proofs to their public values, a generated proof is
/// refused with an error for any other three public values than those that it is returned
/// with.
pub proof fn law_proof_is_bound_to_its_values<
    P: Fn(&FibonacciCircuit<Scalar>) -> Vec<u8>,
    V: Fn(&Vec<u8>, &Vec<Vec<Scalar>>) -> Result<(), String>,
>(
    inputs: Map<String, Vec<Scalar>>,
    prove: P,
    verify: V,
    bytes: Vec<u8>,
    public: Vec<Scalar>,
    others: Seq<Scalar>,
    r: Result<bool, FibonacciError>,
)
    requires
        binds_proofs(prove, verify),
        generates(inputs, prove, Ok((bytes, public))),
        others.len() == 3,
        others != public@,
        judges(bytes, others, verify, r),
    ensures
        r is Err,
{
    assert(seq![others][0] != seq![public@][0]);
}

/// `verify` answers alike whenever it is asked about the same proof and the same public values.
pub open spec fn answers_alike<V: Fn(&Vec<u8>, &Vec<Vec<Scalar>>) -> Result<(), String>>(
    verify: V,
) -> bool {
    forall|
        bytes: Vec<u8>,
        columns: Vec<Vec<Scalar>>,
        answer: Result<(), String>,
        other_bytes: Vec<u8>,
        other_columns: Vec<Vec<Scalar>>,
        other_answer: Result<(), String>,
    |
        #[trigger] call_ensures(verify, (&bytes, &columns), answer) && #[trigger] call_ensures(
            verify,
            (&other_bytes, &other_columns),
            other_answer,
        ) && bytes@ == other_bytes@ && column_values(columns@) == column_values(other_columns@)
            ==> match (answer, other_answer) {
            (Ok(_), Ok(_)) => true,
            (Err(reason), Err(other_reason)) => reason@ == other_reason@,
            _ => false,
        }
}

/// With a verifier that answers alike each time, two verifications of the same proof for the
/// same public values report the same.
pub proof fn law_verdicts_agree<V: Fn(&Vec<u8>, &Vec<Vec<Scalar>>) -> Result<(), String>>(
    bytes: Vec<u8>,
    other_bytes: Vec<u8>,
    inputs: Seq<Scalar>,
    verify: V,
    r: Result<bool, FibonacciError>,
    s: Result<bool, FibonacciError>,
)
    requires
        answers_alike(verify),
        bytes@ == other_bytes@,
        judges(bytes, inputs, verify, r),
        judges(other_bytes, inputs, verify, s),
    ensures
        match (r, s) {
            (Ok(one), Ok(two)) => one == two,
            (Err(one), Err(two)) => one.0@ == two.0@,
            _ => false,
        },
{
}

/// `prove` makes one proof for one set of public values.
pub open spec fn is_repeatable<P: Fn(&FibonacciCircuit<Scalar>) -> Vec<u8>>(prove: P) -> bool {
    forall|one: FibonacciCircuit<Scalar>, two: FibonacciCircuit<Scalar>, r: Vec<u8>, s: Vec<u8>|
        one@ == two@ && #[trigger] call_ensures(prove, (&one,), r) && #[trigger] call_ensures(
            prove,
            (&two,),
            s,
        ) ==> r@ == s@
}

/// Only the first value under `out` counts: inputs that agree on it are proved for the same
/// public values, and a prover that makes one proof for one claim makes the same proof.
pub proof fn law_first_value_counts<P: Fn(&FibonacciCircuit<Scalar>) -> Vec<u8>>(
    inputs: Map<String, Vec<Scalar>>,
    others: Map<String, Vec<Scalar>>,
    prove: P,
    r: Result<(Vec<u8>, Vec<Scalar>), FibonacciError>,
    s: Result<(Vec<u8>, Vec<Scalar>), FibonacciError>,
)
    requires
        claimed_output(inputs) is Some,
        claimed_output(inputs) == claimed_output(others),
        generates(inputs, prove, r),
        generates(others, prove, s),
    ensures
        r is Ok,
        s is Ok,
        r->Ok_0.1@ == s->Ok_0.1@,
        is_repeatable(prove) ==> r->Ok_0.0@ == s->Ok_0.0@,
{
    let one = r->Ok_0.1@;
    let two = s->Ok_0.1@;
    law_scalar_is_its_number(one[0], two[0]);
    law_scalar_is_its_number(one[1], two[1]);
    assert(one == two);
}

/// A configuration takes columns and a selector that exist and that nothing arranged before
/// it uses, and its three advice columns differ.
pub proof fn law_columns_are_fresh(meta: ArrangementView)
    requires
        meta.num_advice_columns <= usize::MAX - 3,
        meta.num_instance_columns < usize::MAX,
        meta.num_selectors < usize::MAX,
    ensures
        ({
            let config = FibonacciConfig::next_of(meta);
            let after = config.added_to(meta);
            &&& meta.num_advice_columns <= config.col_a.index < after.num_advice_columns
            &&& meta.num_advice_columns <= config.col_b.index < after.num_advice_columns
            &&& meta.num_advice_columns <= config.col_c.index < after.num_advice_columns
            &&& meta.num_instance_columns <= config.instance.index < after.num_instance_columns
            &&& meta.num_selectors <= config.selector.index < after.num_selectors
            &&& config.col_a != config.col_b
            &&& config.col_a != config.col_c
            &&& config.col_b != config.col_c
        }),
{
}

/// Two configurations made one after the other share no column and no selector, and each has
/// a gate of its own.
pub proof fn law_configurations_are_apart(meta: ArrangementView)
    requires
        meta.num_advice_columns <= usize::MAX - 6,
        meta.num_instance_columns <= usize::MAX - 2,
        meta.num_selectors <= usize::MAX - 2,
    ensures
        ({
            let one = FibonacciConfig::next_of(meta);
            let between = one.added_to(meta);
            let two = FibonacciConfig::next_of(between);
            let after = two.added_to(between);
            &&& seq![one.col_a, one.col_b, one.col_c, two.col_a, two.col_b, two.col_c].no_duplicates()
            &&& one.instance != two.instance
            &&& one.selector != two.selector
            &&& after.gates == meta.gates + seq![
                GateView { name: "add"@, polys: seq![one.add_polynomial()] },
                GateView { name: "add"@, polys: seq![two.add_polynomial()] },
            ]
        }),
{
}

/// The circuit is configured as its chip is: on equal arrangements, both give the same
/// configuration and leave the same arrangement.
pub proof fn law_circuit_is_configured_as_its_chip<F>(
    meta: &mut Arrangement,
    other: &mut Arrangement,
    chip: FibonacciConfig,
    circuit: FibonacciConfig,
)
    requires
        old(meta)@ == old(other)@,
        call_ensures(FibonacciChip::<F>::configure, (meta,), chip),
        call_ensures(FibonacciCircuit::<F>::configure, (other,), circuit),
    ensures
        chip == circuit,
        final(meta)@ == final(other)@,
{
}

/// Every column whose cells the circuit copies, or ties to public values, has equality
/// enabled.
pub proof fn law_copies_are_enabled(
    config: FibonacciConfig,
    meta: ArrangementView,
    before: LayoutView,
    i: int,
)
    requires
        before.placements.len() <= i < config.laid_out_on(before).placements.len(),
    ensures
        copies_are_enabled(
            config.added_to(meta).equality,
            config.laid_out_on(before).placements[i],
        ),
{
    let base = before.placements.len();
    let equality = config.added_to(meta).equality;
    let enabled = meta.equality.len() as int;
    assert(equality[enabled] == AnyColumn::Advice(config.col_a));
    assert(equality[enabled + 1] == AnyColumn::Advice(config.col_b));
    assert(equality[enabled + 2] == AnyColumn::Advice(config.col_c));
    assert(equality[enabled + 3] == AnyColumn::Instance(config.instance));
    let placement = config.laid_out_on(before).placements[i];
    if i < base + 8 {
        assert(placement == config.rows(before.namespaces, base, 8)[i - base]);
    } else {
        assert(placement == config.output(before.namespaces, base));
    }
}

/// Equality has a cost, and no column has it enabled in vain: each of the four columns takes
/// part in a copy that the circuit asks for.
pub proof fn law_enabled_columns_are_copied(
    config: FibonacciConfig,
    meta: ArrangementView,
    before: LayoutView,
    k: int,
)
    requires
        meta.equality.len() <= k < config.added_to(meta).equality.len(),
    ensures
        exists|i: int|
            before.placements.len() <= i < config.laid_out_on(before).placements.len()
                && #[trigger] copies_column(
                config.laid_out_on(before).placements[i],
                config.added_to(meta).equality[k],
            ),
{
    let layout = config.laid_out_on(before);
    let base = before.placements.len();
    let first = layout.placements[base as int];
    let last = layout.placements[(base + 8) as int];
    assert(first == config.rows(before.namespaces, base, 8)[0]);
    assert(last == config.output(before.namespaces, base));
    let steps = first.action->steps;
    assert(step_copies_column(steps[1], AnyColumn::Advice(config.col_a)));
    assert(step_copies_column(steps[1], AnyColumn::Instance(config.instance)));
    assert(step_copies_column(steps[2], AnyColumn::Advice(config.col_b)));
    assert(copies_column(first, AnyColumn::Advice(config.col_a)));
    assert(copies_column(first, AnyColumn::Advice(config.col_b)));
    assert(copies_column(last, AnyColumn::Advice(config.col_c)));
    assert(copies_column(first, AnyColumn::Instance(config.instance)));
    let column = config.added_to(meta).equality[k];
    if column == AnyColumn::Advice(config.col_c) {
        assert(copies_column(layout.placements[(base + 8) as int], column));
    } else {
        assert(copies_column(layout.placements[base as int], column));
    }
}

/// A row does not depend on the order of the two terms before it but for the order in which it
/// holds them: it holds the terms as they are handed in, and their sum is the same either way.
/// Where one of the two is not known, neither is the sum.
pub proof fn law_sum_of_a_row_is_symmetric(
    config: FibonacciConfig,
    left: AssignedCell,
    right: AssignedCell,
    region: usize,
    values: spec_fn(AssignedCell) -> Option<nat>,
    public: Seq<Seq<nat>>,
    p: nat,
)
    requires
        left.cell.region != region,
        right.cell.region != region,
    ensures
        ({
            let one = after_steps(
                config.next_row(left, right)->steps,
                config.next_row(left, right)->steps.len(),
                region,
                values,
                public,
                p,
            );
            let two = after_steps(
                config.next_row(right, left)->steps,
                config.next_row(right, left)->steps.len(),
                region,
                values,
                public,
                p,
            );
            &&& one(config.a_cell(region)) == values(left)
            &&& one(config.b_cell(region)) == values(right)
            &&& two(config.a_cell(region)) == values(right)
            &&& two(config.b_cell(region)) == values(left)
            &&& one(config.c_cell(region)) == two(config.c_cell(region))
            &&& one(config.c_cell(region)) == match (values(left), values(right)) {
                (Some(a), Some(b)) => Some((a + b) % p),
                _ => None,
            }
        }),
{
    reveal_with_fuel(after_steps, 5);
}

/// A region of the circuit is a single row, on which the selector is on.
pub proof fn law_regions_are_rows(config: FibonacciConfig, before: LayoutView, i: int, k: int)
    requires
        before.placements.len() <= i < before.placements.len() + 8,
        0 <= k < config.laid_out_on(before).placements[i].action->steps.len(),
    ensures
        config.laid_out_on(before).placements[i].action is AssignRegion,
        config.laid_out_on(before).placements[i].action->steps.contains(
            RegionStep::EnableSelector { selector: config.selector, offset: 0 },
        ),
        row_of(config.laid_out_on(before).placements[i].action->steps[k]) == 0,
{
    let base = before.placements.len();
    let placement = config.laid_out_on(before).placements[i];
    assert(placement == config.rows(before.namespaces, base, 8)[i - base]);
    assert(placement.action->steps[0] == RegionStep::EnableSelector {
        selector: config.selector,
        offset: 0,
    });
}

/// Row `row` assigns its cells of `col_b` and `col_c`.
proof fn lemma_row_assigns_its_cells(config: FibonacciConfig, before: LayoutView, row: int)
    requires
        0 <= row < 8,
    ensures
        ({
            let layout = config.laid_out_on(before);
            let base = before.placements.len();
            let region = (base + row) as usize;
            &&& forall|count: int|
                base + row < count ==> #[trigger] assigned_before(
                    layout,
                    count,
                    config.b_cell(region),
                )
            &&& forall|count: int|
                base + row < count ==> #[trigger] assigned_before(
                    layout,
                    count,
                    config.c_cell(region),
                )
        }),
{
    let layout = config.laid_out_on(before);
    let base = before.placements.len();
    let region = (base + row) as usize;
    let placement = layout.placements[base + row];
    assert(placement == config.rows(before.namespaces, base, 8)[row]);
    let steps = placement.action->steps;
    let b = config.b_cell(region);
    let c = config.c_cell(region);
    assert(steps[2].assigned(region, 2) == Some(b));
    assert(steps[3].assigned(region, 3) == Some(c));
    assert(assigned_within(steps, 4, region, b));
    assert(assigned_within(steps, 4, region, c));
}

/// Every cell that the circuit reads, it has assigned before.
pub proof fn law_references_resolve(config: FibonacciConfig, before: LayoutView, i: int)
    requires
        before.placements.len() <= i < config.laid_out_on(before).placements.len(),
    ensures
        references_resolve(config.laid_out_on(before), i),
{
    let layout = config.laid_out_on(before);
    let base = before.placements.len();
    let row = i - base;
    let placement = layout.placements[i];
    if row > 0 {
        lemma_row_assigns_its_cells(config, before, row - 1);
    }
    if row > 1 {
        lemma_row_assigns_its_cells(config, before, row - 2);
    }
    if row < 8 {
        assert(placement == config.rows(before.namespaces, base, 8)[row]);
        let steps = placement.action->steps;
        let region = i as usize;
        assert forall|k: int, cell: AssignedCell|
            0 <= k < steps.len() && #[trigger] refers_to(steps[k], cell) implies assigned_before(
            layout,
            i,
            cell,
        ) || assigned_within(steps, k, region, cell) by {
            if row == 0 {
                assert(steps[1].assigned(region, 1) == Some(config.a_cell(region)));
                assert(steps[2].assigned(region, 2) == Some(config.b_cell(region)));
            } else {
                assert(cell == config.prev_b(base, row) || cell == config.prev_c(base, row));
            }
        }
    } else {
        assert(placement == config.output(before.namespaces, base));
        assert(assigned_before(layout, i, config.sum_cell(base, 7)));
    }
}

/// The circuit assigns no cell twice.
pub proof fn law_cells_are_assigned_once(
    config: FibonacciConfig,
    before: LayoutView,
    i: int,
    k: int,
    j: int,
    m: int,
)
    requires
        config.col_a != config.col_b,
        config.col_a != config.col_c,
        config.col_b != config.col_c,
        before.placements.len() + 8 <= usize::MAX,
        before.placements.len() <= i < before.placements.len() + 8,
        before.placements.len() <= j < before.placements.len() + 8,
        0 <= k < config.laid_out_on(before).placements[i].action->steps.len(),
        0 <= m < config.laid_out_on(before).placements[j].action->steps.len(),
        config.laid_out_on(before).placements[i].action->steps[k].target(i as usize) is Some,
        config.laid_out_on(before).placements[i].action->steps[k].target(i as usize)
            == config.laid_out_on(before).placements[j].action->steps[m].target(j as usize),
    ensures
        i == j,
        k == m,
{
    let base = before.placements.len();
    assert(config.laid_out_on(before).placements[i] == config.rows(before.namespaces, base, 8)[i - base]);
    assert(config.laid_out_on(before).placements[j] == config.rows(before.namespaces, base, 8)[j - base]);
}

} // verus!
