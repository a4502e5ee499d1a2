//! The circuit among others: what it proves whatever is arranged and laid out before it.

use crate::chip::FibonacciConfig;
use crate::circuit::FibonacciCircuit;
use crate::constraints::{
    advice_at, after_steps, equality_holds, gates_vanish, last_assignment, placement_holds,
    public_value, replayed, replayed_values, satisfiable, satisfies, selectors_at,
};
use crate::field::{modulus, Scalar};
use crate::laws::{
    law_output_is_ninth_term, lemma_add_polynomial, lemma_addition_vanishes, lemma_row_assigns,
    lemma_term_in_field, term,
};
use crate::operations::{
    law_arrangement_is_its_fields, law_layout_is_its_fields, law_proof_is_of_the_claim,
};
use crate::plan::{
    ActionView, AdviceColumn, Arrangement, ArrangementView, Cell, Layout, LayoutView, RegionStep,
    Selector,
};
use crate::protocol::{
    column_values, generate_halo2_proof, reports, verify_halo2_proof, FibonacciError,
};
use std::collections::HashMap;
use vstd::arithmetic::div_mod::{lemma_add_mod_noop, lemma_small_mod};
use vstd::prelude::*;

verus! {

/// The sum of two residues is the residue of the sum.
proof fn lemma_residues_add(x: nat, y: nat, p: nat)
    requires
        p > 0,
    ensures
        (x % p + y % p) % p == (x + y) % p,
{
    lemma_add_mod_noop(x as int, y as int, p as int);
}

/// The term with index nine in closed form: it counts the first term twenty-one times and the
/// second one thirty-four times.
pub proof fn law_ninth_term(p: nat, first: nat, second: nat)
    requires
        first < p,
        second < p,
    ensures
        term(p, first, second, 9) == (21 * first + 34 * second) % p,
{
    lemma_small_mod(first, p);
    lemma_small_mod(second, p);
    assert(term(p, first, second, 0) == first);
    assert(term(p, first, second, 1) == second);
    assert(term(p, first, second, 2) == (first + second) % p);
    lemma_residues_add(second, first + second, p);
    assert(term(p, first, second, 3) == (first + 2 * second) % p);
    lemma_residues_add(first + second, first + 2 * second, p);
    assert(term(p, first, second, 4) == (2 * first + 3 * second) % p);
    lemma_residues_add(first + 2 * second, 2 * first + 3 * second, p);
    assert(term(p, first, second, 5) == (3 * first + 5 * second) % p);
    lemma_residues_add(2 * first + 3 * second, 3 * first + 5 * second, p);
    assert(term(p, first, second, 6) == (5 * first + 8 * second) % p);
    lemma_residues_add(3 * first + 5 * second, 5 * first + 8 * second, p);
    assert(term(p, first, second, 7) == (8 * first + 13 * second) % p);
    lemma_residues_add(5 * first + 8 * second, 8 * first + 13 * second, p);
    assert(term(p, first, second, 8) == (13 * first + 21 * second) % p);
    lemma_residues_add(8 * first + 13 * second, 13 * first + 21 * second, p);
}

/// `values`, with the rows from position `base` on filled with consecutive terms.
spec fn filled(
    values: spec_fn(Cell) -> nat,
    config: FibonacciConfig,
    base: nat,
    first: nat,
    second: nat,
    p: nat,
) -> spec_fn(Cell) -> nat {
    |cell: Cell|
        if base <= cell.region < base + 8 {
            let row = (cell.region - base) as nat;
            if cell.offset == 0 && cell.column == config.col_a {
                term(p, first, second, row)
            } else if cell.offset == 0 && cell.column == config.col_b {
                term(p, first, second, row + 1)
            } else if cell.offset == 0 && cell.column == config.col_c {
                term(p, first, second, row + 2)
            } else {
                0
            }
        } else {
            values(cell)
        }
}

/// A request made before the circuit holds for the filled values if it held before.
proof fn lemma_earlier_request_holds(
    config: FibonacciConfig,
    meta: ArrangementView,
    before: LayoutView,
    values: spec_fn(Cell) -> nat,
    public: Seq<Seq<nat>>,
    p: nat,
    first: nat,
    second: nat,
    i: int,
)
    requires
        p > 0,
        0 <= i < before.placements.len() <= usize::MAX,
        placement_holds(meta.gates, before.placements[i], i as usize, values, public, p),
        match before.placements[i].action {
            ActionView::AssignRegion { steps, .. } => forall|k: int|
                0 <= k < steps.len() ==> match #[trigger] steps[k] {
                    RegionStep::EnableSelector { selector, .. } => selector != config.selector,
                    RegionStep::CopyAdvice { source, .. } => source.cell.region
                        < before.placements.len(),
                    _ => true,
                },
            ActionView::ConstrainInstance { cell, .. } => cell.region < before.placements.len(),
        },
    ensures
        placement_holds(
            config.added_to(meta).gates,
            before.placements[i],
            i as usize,
            filled(values, config, before.placements.len(), first, second, p),
            public,
            p,
        ),
{
    let base = before.placements.len();
    let gates = config.added_to(meta).gates;
    let after = filled(values, config, base, first, second, p);
    let region = i as usize;
    if let ActionView::AssignRegion { steps, .. } = before.placements[i].action {
        assert forall|offset: usize|
            #[trigger] gates_vanish(gates, region, steps, offset, after, p) by {
            let selectors = selectors_at(steps, offset);
            let advice = advice_at(after, region, offset);
            assert(advice =~= advice_at(values, region, offset));
            assert(gates_vanish(meta.gates, region, steps, offset, values, p));
            lemma_add_polynomial(config, selectors, advice);
            assert(selectors(config.selector) == 0) by {
                let enabled = RegionStep::EnableSelector { selector: config.selector, offset };
                if steps.contains(enabled) {
                    let k = choose|k: int| 0 <= k < steps.len() && steps[k] == enabled;
                    assert(steps[k] == enabled);
                }
            }
            lemma_small_mod(0, p);
            assert forall|g: int, k: int|
                0 <= g < gates.len() && 0 <= k < gates[g].polys.len() implies (
            #[trigger] gates[g].polys[k]).evaluate(selectors, advice) % (p as int) == 0 by {
                if g < meta.gates.len() {
                    assert(gates[g] == meta.gates[g]);
                    assert(meta.gates[g].polys[k].evaluate(selectors, advice) % (p as int) == 0);
                } else {
                    assert(gates[g].polys[k] == config.add_polynomial());
                }
            }
        }
        assert forall|k: int| 0 <= k < steps.len() implies equality_holds(
            #[trigger] steps[k],
            region,
            after,
            public,
        ) by {
            assert(equality_holds(steps[k], region, values, public));
        }
    }
}

/// A row of the circuit holds for the filled values.
proof fn lemma_filled_row_holds(
    config: FibonacciConfig,
    meta: ArrangementView,
    before: LayoutView,
    values: spec_fn(Cell) -> nat,
    public: Seq<Seq<nat>>,
    p: nat,
    row: int,
)
    requires
        p > 0,
        0 <= row < 8,
        before.placements.len() + 9 <= usize::MAX,
        config.col_a != config.col_b,
        config.col_a != config.col_c,
        config.col_b != config.col_c,
        forall|
            g: int,
            k: int,
            selectors: spec_fn(Selector) -> int,
            advice: spec_fn(AdviceColumn) -> int,
        |
            0 <= g < meta.gates.len() && 0 <= k < meta.gates[g].polys.len() && (forall|
                selector: Selector,
            |
                selector != config.selector ==> #[trigger] selectors(selector) == 0)
                ==> (#[trigger] meta.gates[g].polys[k].evaluate(selectors, advice)) % (p as int)
                == 0,
    ensures
        ({
            let base = before.placements.len();
            let first = public_value(public, config.instance, 0);
            let second = public_value(public, config.instance, 1);
            placement_holds(
                config.added_to(meta).gates,
                config.laid_out_on(before).placements[base + row],
                (base + row) as usize,
                filled(values, config, base, first, second, p),
                public,
                p,
            )
        }),
{
    let base = before.placements.len();
    let first = public_value(public, config.instance, 0);
    let second = public_value(public, config.instance, 1);
    let gates = config.added_to(meta).gates;
    let after = filled(values, config, base, first, second, p);
    let region = (base + row) as usize;
    let placement = config.laid_out_on(before).placements[base + row];
    assert(placement == config.rows(before.namespaces, base, 8)[row]);
    let steps = placement.action->steps;
    assert(after(config.a_cell(region).cell) == term(p, first, second, row as nat));
    assert(after(config.b_cell(region).cell) == term(p, first, second, row as nat + 1));
    assert(after(config.c_cell(region).cell) == term(p, first, second, row as nat + 2));
    assert forall|offset: usize|
        #[trigger] gates_vanish(gates, region, steps, offset, after, p) by {
        let selectors = selectors_at(steps, offset);
        let advice = advice_at(after, region, offset);
        lemma_addition_vanishes(config, region, steps, offset, after, p);
        assert forall|selector: Selector| selector != config.selector implies #[trigger] selectors(
            selector,
        ) == 0 by {
            let enabled = RegionStep::EnableSelector { selector, offset };
            if steps.contains(enabled) {
                let k = choose|k: int| 0 <= k < steps.len() && steps[k] == enabled;
                assert(steps[k] == enabled);
            }
        }
        assert forall|g: int, k: int|
            0 <= g < gates.len() && 0 <= k < gates[g].polys.len() implies (
        #[trigger] gates[g].polys[k]).evaluate(selectors, advice) % (p as int) == 0 by {
            if g < meta.gates.len() {
                assert(gates[g] == meta.gates[g]);
                assert(meta.gates[g].polys[k].evaluate(selectors, advice) % (p as int) == 0);
            } else {
                assert(gates[g].polys[k] == config.add_polynomial());
            }
        }
    }
    if row > 0 {
        let last = config.prev_c(base, row);
        assert(after(last.cell) == term(p, first, second, row as nat + 1));
        let last_but_one = config.prev_b(base, row);
        assert(after(last_but_one.cell) == term(p, first, second, row as nat));
    }
    assert forall|k: int| 0 <= k < steps.len() implies equality_holds(
        #[trigger] steps[k],
        region,
        after,
        public,
    ) by {}
}

/// Soundness and completeness wherever the circuit stands: after any requests that hold, with
/// any gates that their own selectors switch off, and in any namespaces, the constraints can be
/// satisfied exactly if the third public value counts the first one twenty-one times and the
/// second one thirty-four times. All values before the circuit can then stay as they are.
pub proof fn law_circuit_proves_the_ninth_term<F>(
    circuit: FibonacciCircuit<F>,
    meta: &mut Arrangement,
    config: FibonacciConfig,
    layouter: &mut Layout,
    values: spec_fn(Cell) -> nat,
    public: Seq<Seq<nat>>,
    p: nat,
)
    requires
        call_ensures(FibonacciCircuit::<F>::configure, (meta,), config),
        call_ensures(FibonacciCircuit::<F>::synthesize, (&circuit, config, layouter), ()),
        satisfies(values, old(meta)@, old(layouter)@, public, p),
        public[config.instance.index as int][0] < p,
        public[config.instance.index as int][1] < p,
        forall|i: int|
            0 <= i < old(layouter)@.placements.len() ==> match (
            #[trigger] old(layouter)@.placements[i]).action {
                ActionView::AssignRegion { steps, .. } => forall|k: int|
                    0 <= k < steps.len() ==> match #[trigger] steps[k] {
                        RegionStep::EnableSelector { selector, .. } => selector.index < old(meta).num_selectors,
                        RegionStep::CopyAdvice { source, .. } => source.cell.region < old(layouter)@.placements.len(),
                        _ => true,
                    },
                ActionView::ConstrainInstance { cell, .. } => cell.region < old(layouter)@.placements.len(),
            },
        forall|
            g: int,
            k: int,
            selectors: spec_fn(Selector) -> int,
            advice: spec_fn(AdviceColumn) -> int,
        |
            0 <= g < old(meta)@.gates.len() && 0 <= k < old(meta)@.gates[g].polys.len() && (forall|
                selector: Selector,
            |
                selector.index < old(meta).num_selectors ==> #[trigger] selectors(selector) == 0)
                ==> (#[trigger] old(meta)@.gates[g].polys[k].evaluate(selectors, advice)) % (
            p as int) == 0,
    ensures
        satisfiable(final(meta)@, final(layouter)@, public, p)
            <==> public[config.instance.index as int][2] == (21
            * public[config.instance.index as int][0] + 34
            * public[config.instance.index as int][1]) % p,
        satisfiable(final(meta)@, final(layouter)@, public, p) ==> exists|
            after: spec_fn(Cell) -> nat,
        |
            {
                &&& #[trigger] satisfies(after, final(meta)@, final(layouter)@, public, p)
                &&& forall|cell: Cell|
                    cell.region < old(layouter)@.placements.len() ==> #[trigger] after(cell)
                        == values(cell)
            },
{
    let meta_before = old(meta)@;
    let before = old(layouter)@;
    let base = before.placements.len();
    let first = public_value(public, config.instance, 0);
    let second = public_value(public, config.instance, 1);
    let arrangement = final(meta)@;
    let layout = final(layouter)@;
    law_arrangement_is_its_fields(*final(meta));
    law_layout_is_its_fields(*final(layouter));
    assert(layout == config.laid_out_on(before));
    assert(arrangement == config.added_to(meta_before));
    assert(layout.placements.len() == base + 9);
    law_ninth_term(p, first, second);
    if satisfiable(arrangement, layout, public, p) {
        let any = choose|any: spec_fn(Cell) -> nat|
            #[trigger] satisfies(any, arrangement, layout, public, p);
        law_output_is_ninth_term(config, meta_before, before, any, public, p);
    }
    if public_value(public, config.instance, 2) == term(p, first, second, 9) {
        let after = filled(values, config, base, first, second, p);
        assert forall|cell: Cell| #[trigger] after(cell) < p by {
            assert(values(cell) < p);
            let row = (cell.region - base) as nat;
            lemma_term_in_field(p, first, second, row);
            lemma_term_in_field(p, first, second, row + 1);
            lemma_term_in_field(p, first, second, row + 2);
        }
        assert forall|i: int| 0 <= i < layout.placements.len() implies placement_holds(
            arrangement.gates,
            #[trigger] layout.placements[i],
            i as usize,
            after,
            public,
            p,
        ) by {
            if i < base {
                assert(layout.placements[i] == before.placements[i]);
                lemma_earlier_request_holds(
                    config,
                    meta_before,
                    before,
                    values,
                    public,
                    p,
                    first,
                    second,
                    i,
                );
            } else if i < base + 8 {
                lemma_filled_row_holds(
                    config,
                    meta_before,
                    before,
                    values,
                    public,
                    p,
                    i - base,
                );
            } else {
                assert(layout.placements[i] == config.output(before.namespaces, base));
                assert(after(config.sum_cell(base, 7).cell) == term(p, first, second, 9));
            }
        }
        assert(satisfies(after, arrangement, layout, public, p));
    }
}

/// Once the first `count` rows are replayed, the cells of row `row` carry consecutive terms.
proof fn lemma_replay_carries_terms(
    config: FibonacciConfig,
    before: LayoutView,
    public: Seq<Seq<nat>>,
    p: nat,
    count: nat,
    row: nat,
)
    requires
        row < count <= 8,
        before.placements.len() + 9 <= usize::MAX,
    ensures
        ({
            let base = before.placements.len();
            let region = (base + row) as usize;
            let first = public_value(public, config.instance, 0);
            let second = public_value(public, config.instance, 1);
            let carried = replayed(config.laid_out_on(before), base + count, public, p);
            &&& carried(config.a_cell(region)) == Some(term(p, first, second, row))
            &&& carried(config.b_cell(region)) == Some(term(p, first, second, row + 1))
            &&& carried(config.c_cell(region)) == Some(term(p, first, second, row + 2))
        }),
    decreases count,
{
    let base = before.placements.len();
    let first = public_value(public, config.instance, 0);
    let second = public_value(public, config.instance, 1);
    let layout = config.laid_out_on(before);
    let last = (count - 1) as nat;
    let earlier = replayed(layout, base + last, public, p);
    let region = (base + last) as usize;
    let placement = layout.placements[(base + last) as int];
    assert(placement == config.rows(before.namespaces, base, 8)[last as int]);
    let steps = placement.action->steps;
    let a = (config.a_cell(region), term(p, first, second, last));
    let b = (config.b_cell(region), term(p, first, second, last + 1));
    let c = (config.c_cell(region), term(p, first, second, last + 2));
    if last > 0 {
        lemma_replay_carries_terms(config, before, public, p, last, (last - 1) as nat);
        let above = (base + (last - 1)) as usize;
        assert(config.prev_c(base, last as int) == config.c_cell(above));
        assert(earlier(config.prev_c(base, last as int)) == Some(
            term(p, first, second, last + 1),
        ));
        if last == 1 {
            assert(config.prev_b(base, last as int) == config.b_cell(above));
        } else {
            lemma_replay_carries_terms(config, before, public, p, last, (last - 2) as nat);
            let higher = (base + (last - 2)) as usize;
            assert(config.prev_b(base, last as int) == config.c_cell(higher));
        }
        assert(earlier(config.prev_b(base, last as int)) == Some(term(p, first, second, last)));
    }
    lemma_row_assigns(steps, region, earlier, public, p, a, b, c);
    let carried = replayed(layout, base + count, public, p);
    assert(carried == after_steps(steps, 4, region, earlier, public, p));
    if row < last {
        lemma_replay_carries_terms(config, before, public, p, last, row);
        assert((base + row) as usize != region);
    }
}

/// Wherever the circuit stands, replaying it fills its rows with consecutive terms: row `row`
/// holds those with the indices `row`, `row + 1` and `row + 2`.
pub proof fn law_replay_fills_the_rows_anywhere<F>(
    circuit: FibonacciCircuit<F>,
    config: FibonacciConfig,
    layouter: &mut Layout,
    public: Seq<Seq<nat>>,
    p: nat,
    row: nat,
)
    requires
        call_ensures(FibonacciCircuit::<F>::synthesize, (&circuit, config, layouter), ()),
        config.col_a != config.col_b,
        config.col_a != config.col_c,
        config.col_b != config.col_c,
        row < 8,
    ensures
        ({
            let region = (old(layouter)@.placements.len() + row) as usize;
            let first = public[config.instance.index as int][0];
            let second = public[config.instance.index as int][1];
            let values = replayed_values(final(layouter)@, public, p);
            &&& values(Cell { region, column: config.col_a, offset: 0 }) == term(
                p,
                first,
                second,
                row,
            )
            &&& values(Cell { region, column: config.col_b, offset: 0 }) == term(
                p,
                first,
                second,
                row + 1,
            )
            &&& values(Cell { region, column: config.col_c, offset: 0 }) == term(
                p,
                first,
                second,
                row + 2,
            )
        }),
{
    let before = old(layouter)@;
    let layout = final(layouter)@;
    let base = before.placements.len();
    law_layout_is_its_fields(*final(layouter));
    assert(layout == config.laid_out_on(before));
    assert(layout.placements.len() == base + 9);
    let first = public_value(public, config.instance, 0);
    let second = public_value(public, config.instance, 1);
    lemma_replay_carries_terms(config, before, public, p, 8, row);
    assert(layout.placements[(base + 8) as int] == config.output(before.namespaces, base));
    assert(replayed(layout, base + 9, public, p) == replayed(layout, base + 8, public, p));
    let region = (base + row) as usize;
    let carried = replayed(layout, base + 8, public, p);
    assert(carried(config.c_cell(region)) == Some(term(p, first, second, row + 2)));
    let placement = layout.placements[region as int];
    assert(placement == config.rows(before.namespaces, base, 8)[row as int]);
    reveal_with_fuel(last_assignment, 5);
}

/// The whole way of a claim. Take a prover and a verifier for the circuit that is configured
/// and laid out on its own: proofs made for three public values are accepted with these values
/// exactly if the circuit can be satisfied for them. Then what is generated for a claim is
/// verified exactly if the first value under `out` is fifty-five, and refused with an error
/// otherwise.
pub proof fn law_only_fifty_five_is_verified<
    P: Fn(&FibonacciCircuit<Scalar>) -> Vec<u8>,
    V: Fn(&Vec<u8>, &Vec<Vec<Scalar>>) -> Result<(), String>,
>(
    meta: &mut Arrangement,
    layouter: &mut Layout,
    config: FibonacciConfig,
    circuit: FibonacciCircuit<Scalar>,
    inputs: HashMap<String, Vec<Scalar>>,
    key: String,
    prove: P,
    verify: V,
    bytes: Vec<u8>,
    public: Vec<Scalar>,
    r: Result<bool, FibonacciError>,
)
    requires
        call_ensures(Arrangement::new, (), *old(meta)),
        call_ensures(FibonacciCircuit::<Scalar>::configure, (meta,), config),
        call_ensures(Layout::new, (), *old(layouter)),
        call_ensures(FibonacciCircuit::<Scalar>::synthesize, (&circuit, config, layouter), ()),
        forall|
            proved: FibonacciCircuit<Scalar>,
            made: Vec<u8>,
            columns: Vec<Vec<Scalar>>,
            answer: Result<(), String>,
        |
            #[trigger] call_ensures(prove, (&proved,), made) && #[trigger] call_ensures(
                verify,
                (&made, &columns),
                answer,
            ) && proved.public_input@.len() == 1 && proved.public_input@[0]@.len() == 3
                && columns@.len() == 1 && columns@[0]@ == proved.public_input@[0]@ ==> (answer is Ok
                <==> satisfiable(
                final(meta)@,
                final(layouter)@,
                seq![
                    seq![
                        proved.public_input@[0]@[0]@,
                        proved.public_input@[0]@[1]@,
                        proved.public_input@[0]@[2]@,
                    ],
                ],
                modulus(),
            )),
        inputs@.contains_key(key),
        key@ == "out"@,
        forall|other: String| #[trigger]
            inputs@.contains_key(other) && other@ == "out"@ ==> other == key,
        call_ensures(generate_halo2_proof::<P>, (inputs, prove), Ok((bytes, public))),
        call_ensures(verify_halo2_proof::<V>, (bytes, public, verify), r),
    ensures
        inputs@[key]@.len() > 0,
        inputs@[key]@[0]@ == 55 ==> r == Ok::<bool, FibonacciError>(true),
        inputs@[key]@[0]@ != 55 ==> r is Err,
{
    law_proof_is_of_the_claim(inputs, key, prove, Ok((bytes, public)));
    let proved = choose|proved: FibonacciCircuit<Scalar>|
        {
            &&& proved.public_input@.len() == 1
            &&& proved.public_input@[0]@ == public@
            &&& #[trigger] call_ensures(prove, (&proved,), bytes)
        };
    let (columns, answer) = choose|columns: Vec<Vec<Scalar>>, answer: Result<(), String>|
        {
            &&& column_values(columns@) == seq![public@]
            &&& #[trigger] call_ensures(verify, (&bytes, &columns), answer)
            &&& reports(r, answer)
        };
    assert(column_values(columns@).len() == columns@.len());
    assert(column_values(columns@)[0] == columns@[0]@);
    let numbers = seq![seq![1nat, 1nat, inputs@[key]@[0]@]];
    let values = |cell: Cell| 0nat;
    law_layout_is_its_fields(*old(layouter));
    law_arrangement_is_its_fields(*old(meta));
    assert(satisfies(values, old(meta)@, old(layouter)@, numbers, modulus()));
    law_circuit_proves_the_ninth_term(
        circuit,
        meta,
        config,
        layouter,
        values,
        numbers,
        modulus(),
    );
    assert(answer is Ok <==> satisfiable(final(meta)@, final(layouter)@, numbers, modulus()));
}

} // verus!
