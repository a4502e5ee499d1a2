//! What the operations do, call by call: what a result holds, what a call leaves as it was, and
//! how two calls relate.

use crate::chip::{FibonacciChip, FibonacciConfig};
use crate::circuit::FibonacciCircuit;
use crate::constraints::{after_steps, equality_holds, read_by, selectors_at};
use crate::field::{law_encoding_is_its_number, law_scalar_is_its_number, le_value, modulus, sum_if_known, Scalar};
use crate::plan::{
    Action, AdviceColumn, AnyColumn, Arrangement, AssignedCell, Cell, Expression, InstanceColumn,
    Layout, Placement, RegionStep, Selector,
};
use crate::witness::Witness;
use crate::protocol::{
    generate_halo2_proof, public_input, verification_outcome, verify_halo2_proof, FibonacciError,
};
use std::collections::HashMap;
use vstd::prelude::*;

verus! {

/// The public values of a claim are one, one and the first value that is held under `out`;
/// there are none exactly if no value is held there. A map holds at most one key of one
/// spelling: `key` is the one that spells `out`.
pub proof fn law_claim_is_the_first_value(
    inputs: &HashMap<String, Vec<Scalar>>,
    key: String,
    r: Result<Vec<Scalar>, FibonacciError>,
)
    requires
        call_ensures(public_input, (inputs,), r),
        inputs@.contains_key(key),
        key@ == "out"@,
        forall|other: String| #[trigger]
            inputs@.contains_key(other) && other@ == "out"@ ==> other == key,
    ensures
        r is Ok <==> inputs@[key]@.len() > 0,
        r matches Ok(public) ==> {
            &&& public@.len() == 3
            &&& public@[0]@ == 1
            &&& public@[1]@ == 1
            &&& public@[2] == inputs@[key]@[0]
            &&& public@[2]@ == inputs@[key]@[0]@
        },
        r matches Err(error) ==> error.0@ == "Failed to get `out` value"@,
{
}

/// A claim without a value under `out` has no public values.
pub proof fn law_no_claim_without_an_output(
    inputs: &HashMap<String, Vec<Scalar>>,
    r: Result<Vec<Scalar>, FibonacciError>,
)
    requires
        call_ensures(public_input, (inputs,), r),
        forall|key: String| #[trigger] inputs@.contains_key(key) ==> key@ != "out"@,
    ensures
        r matches Err(error) && error.0@ == "Failed to get `out` value"@,
{
}

/// A generated proof is one that the prover makes for the circuit with one column of public
/// values, which are returned with it: one, one and the first value that is held under `out`,
/// whatever number that value is.
pub proof fn law_proof_is_of_the_claim<P: Fn(&FibonacciCircuit<Scalar>) -> Vec<u8>>(
    inputs: HashMap<String, Vec<Scalar>>,
    key: String,
    prove: P,
    r: Result<(Vec<u8>, Vec<Scalar>), FibonacciError>,
)
    requires
        call_ensures(generate_halo2_proof::<P>, (inputs, prove), r),
        inputs@.contains_key(key),
        key@ == "out"@,
        forall|other: String| #[trigger]
            inputs@.contains_key(other) && other@ == "out"@ ==> other == key,
    ensures
        r is Ok <==> inputs@[key]@.len() > 0,
        r matches Ok((bytes, public)) ==> {
            &&& public@.len() == 3
            &&& public@[0]@ == 1
            &&& public@[1]@ == 1
            &&& public@[2] == inputs@[key]@[0]
            &&& public@[2]@ == inputs@[key]@[0]@
            &&& exists|circuit: FibonacciCircuit<Scalar>|
                {
                    &&& circuit.public_input@.len() == 1
                    &&& circuit.public_input@[0]@ == public@
                    &&& #[trigger] call_ensures(prove, (&circuit,), bytes)
                }
        },
        r matches Err(error) ==> error.0@ == "Failed to get `out` value"@,
{
    if let Ok((bytes, public)) = r {
        let circuit = choose|circuit: FibonacciCircuit<Scalar>|
            circuit@ == seq![public@] && #[trigger] call_ensures(prove, (&circuit,), bytes);
        assert(circuit@.len() == circuit.public_input@.len());
        assert(circuit@[0] == circuit.public_input@[0]@);
    }
}

/// Where nothing is held under `out`, no proof is generated, whatever the prover.
pub proof fn law_no_proof_without_an_output<P: Fn(&FibonacciCircuit<Scalar>) -> Vec<u8>>(
    inputs: HashMap<String, Vec<Scalar>>,
    prove: P,
    r: Result<(Vec<u8>, Vec<Scalar>), FibonacciError>,
)
    requires
        call_ensures(generate_halo2_proof::<P>, (inputs, prove), r),
        forall|key: String| #[trigger] inputs@.contains_key(key) ==> key@ != "out"@,
    ensures
        r matches Err(error) && error.0@ == "Failed to get `out` value"@,
{
}

/// Acceptance is reported as `true`, a refusal as an error that quotes the reason, and nothing
/// else.
pub proof fn law_outcome_is_the_answer(
    answer: Result<(), String>,
    r: Result<bool, FibonacciError>,
)
    requires
        call_ensures(verification_outcome, (answer,), r),
    ensures
        r is Ok <==> answer is Ok,
        r matches Ok(accepted) ==> accepted,
        r matches Err(error) ==> error.0@ == "Verifying proof error: "@ + answer->Err_0@,
{
}

/// What is reported of a proof is what the verifier answers on it with one column of the given
/// values, whatever the values are: acceptance where it can only accept, an error where it can
/// only refuse, and an error that quotes one of its reasons.
pub proof fn law_verdict_is_the_verifiers<
    V: Fn(&Vec<u8>, &Vec<Vec<Scalar>>) -> Result<(), String>,
>(bytes: Vec<u8>, inputs: Vec<Scalar>, verify: V, r: Result<bool, FibonacciError>)
    requires
        call_ensures(verify_halo2_proof::<V>, (bytes, inputs, verify), r),
    ensures
        (forall|columns: Vec<Vec<Scalar>>, answer: Result<(), String>|
            columns@.len() == 1 && columns@[0]@ == inputs@ && #[trigger] call_ensures(
                verify,
                (&bytes, &columns),
                answer,
            ) ==> answer is Ok) ==> r == Ok::<bool, FibonacciError>(true),
        (forall|columns: Vec<Vec<Scalar>>, answer: Result<(), String>|
            columns@.len() == 1 && columns@[0]@ == inputs@ && #[trigger] call_ensures(
                verify,
                (&bytes, &columns),
                answer,
            ) ==> answer is Err) ==> r is Err,
        exists|columns: Vec<Vec<Scalar>>, answer: Result<(), String>|
            {
                &&& columns@.len() == 1
                &&& columns@[0]@ == inputs@
                &&& #[trigger] call_ensures(verify, (&bytes, &columns), answer)
                &&& match answer {
                    Ok(_) => r == Ok::<bool, FibonacciError>(true),
                    Err(reason) => r matches Err(error) && error.0@ == "Verifying proof error: "@
                        + reason@,
                }
            },
{
    let (columns, answer) = choose|columns: Vec<Vec<Scalar>>, answer: Result<(), String>|
        {
            &&& crate::protocol::column_values(columns@) == seq![inputs@]
            &&& #[trigger] call_ensures(verify, (&bytes, &columns), answer)
            &&& crate::protocol::reports(r, answer)
        };
    assert(crate::protocol::column_values(columns@).len() == columns@.len());
    assert(crate::protocol::column_values(columns@)[0] == columns@[0]@);
}

/// The order of the field in decimal, and how bytes spell numbers: the first byte counts once,
/// and all that follow count 256 times as much.
pub proof fn law_bytes_spell_numbers(first: u8, rest: Seq<u8>)
    ensures
        modulus()
            == 21888242871839275222246405745257275088548364400416034343698204186575808495617nat,
        le_value(Seq::empty()) == 0,
        le_value(seq![first] + rest) == first + 256 * le_value(rest),
{
    assert((seq![first] + rest).drop_first() == rest);
}

/// The sum of two elements is the sum of their numbers, less the field's order where that is
/// reached.
pub proof fn law_sum_wraps_once(a: Scalar, b: Scalar, ab: Scalar)
    requires
        a@ < modulus(),
        b@ < modulus(),
        call_ensures(Scalar::plus, (&a, &b), ab),
    ensures
        ab@ == if a@ + b@ < modulus() {
            (a@ + b@) as int
        } else {
            a@ + b@ - modulus()
        },
        ab@ < modulus(),
{
}

/// Addition is that of a group: it is commutative and associative, zero is neutral, and what
/// is added can be told from the sum.
pub proof fn law_addition_of_the_field(
    a: Scalar,
    b: Scalar,
    c: Scalar,
    ab: Scalar,
    ba: Scalar,
    bc: Scalar,
    ab_c: Scalar,
    a_bc: Scalar,
)
    requires
        a@ < modulus(),
        b@ < modulus(),
        c@ < modulus(),
        call_ensures(Scalar::plus, (&a, &b), ab),
        call_ensures(Scalar::plus, (&b, &a), ba),
        call_ensures(Scalar::plus, (&b, &c), bc),
        call_ensures(Scalar::plus, (&ab, &c), ab_c),
        call_ensures(Scalar::plus, (&a, &bc), a_bc),
    ensures
        ab == ba,
        ab_c == a_bc,
        b@ == 0 ==> ab == a,
        ab == bc ==> a == c,
{
    law_sum_wraps_once(a, b, ab);
    law_sum_wraps_once(b, a, ba);
    law_sum_wraps_once(b, c, bc);
    law_sum_wraps_once(ab, c, ab_c);
    law_sum_wraps_once(a, bc, a_bc);
    lemma_sums_agree(a@, b@, c@, ab@, ba@, bc@, ab_c@, a_bc@, modulus());
    law_scalar_is_its_number(ab, ba);
    law_scalar_is_its_number(ab_c, a_bc);
    if b@ == 0 {
        law_scalar_is_its_number(ab, a);
    }
    if ab == bc {
        law_scalar_is_its_number(a, c);
    }
}

/// Sums that wrap once at `p` are those of a group.
proof fn lemma_sums_agree(
    a: nat,
    b: nat,
    c: nat,
    ab: nat,
    ba: nat,
    bc: nat,
    ab_c: nat,
    a_bc: nat,
    p: nat,
)
    requires
        a < p,
        b < p,
        c < p,
        ab == if a + b < p { (a + b) as int } else { a + b - p },
        ba == if b + a < p { (b + a) as int } else { b + a - p },
        bc == if b + c < p { (b + c) as int } else { b + c - p },
        ab_c == if ab + c < p { (ab + c) as int } else { ab + c - p },
        a_bc == if a + bc < p { (a + bc) as int } else { a + bc - p },
    ensures
        ab == ba,
        ab_c == a_bc,
        b == 0 ==> ab == a,
        ab == bc ==> a == c,
{
}

/// A number below the field's order is read back from its encoding, and nothing else is.
pub proof fn law_encodings_are_read_back(
    scalar: Scalar,
    bytes: [u8; 32],
    r: Option<Scalar>,
    others: [u8; 32],
    s: Option<Scalar>,
)
    requires
        call_ensures(Scalar::to_bytes, (&scalar,), bytes),
        call_ensures(Scalar::from_bytes, (bytes,), r),
        call_ensures(Scalar::from_bytes, (others,), s),
    ensures
        le_value(bytes@) == scalar@,
        r == Some(scalar),
        s is Some <==> le_value(others@) < modulus(),
        s is Some ==> s->0@ == le_value(others@),
        s == Some(scalar) <==> others@ == bytes@,
{
    law_scalar_is_its_number(scalar, r->0);
    if s is Some && s->0@ == scalar@ {
        law_scalar_is_its_number(scalar, s->0);
        law_encoding_is_its_number(others@, bytes@);
    }
}

/// A small number is taken as itself.
pub proof fn law_small_numbers_are_themselves(
    value: u64,
    scalar: Scalar,
    bytes: [u8; 32],
)
    requires
        call_ensures(Scalar::from_u64, (value,), scalar),
        call_ensures(Scalar::to_bytes, (&scalar,), bytes),
    ensures
        scalar@ == value,
        le_value(bytes@) == value,
{
}

/// A sum is known exactly if both terms are, and is then their sum.
pub proof fn law_sum_of_known_values(
    left: Option<Scalar>,
    right: Option<Scalar>,
    r: Option<Scalar>,
    sum: Scalar,
)
    requires
        call_ensures(sum_if_known, (left, right), r),
        left is Some && right is Some ==> call_ensures(
            Scalar::plus,
            (&left->0, &right->0),
            sum,
        ),
    ensures
        left is Some && right is Some ==> r == Some(sum),
        left is None || right is None ==> r is None,
{
    if left is Some && right is Some {
        law_scalar_is_its_number(r->0, sum);
    }
}

/// The public values of a circuit are those that it was made with, column by column and in
/// order; without witnesses it has none.
pub proof fn law_instances_are_the_public_values<F: Copy>(
    circuit: FibonacciCircuit<F>,
    r: Vec<Vec<F>>,
    without: FibonacciCircuit<F>,
    blank: FibonacciCircuit<F>,
)
    requires
        call_ensures(<FibonacciCircuit<F> as Default>::default, (), blank),
        call_ensures(FibonacciCircuit::<F>::instances, (&circuit,), r),
        call_ensures(FibonacciCircuit::<F>::without_witnesses, (&circuit,), without),
    ensures
        r@.len() == circuit.public_input@.len(),
        forall|i: int|
            0 <= i < r@.len() ==> (#[trigger] r@[i])@ == circuit.public_input@[i]@,
        without.public_input@.len() == 0,
        blank.public_input@.len() == 0,
{
    let columns = r@.map_values(|column: Vec<F>| column@);
    assert(columns.len() == r@.len());
    assert(circuit@.len() == circuit.public_input@.len());
    assert forall|i: int| 0 <= i < r@.len() implies (#[trigger] r@[i])@
        == circuit.public_input@[i]@ by {
        assert(columns[i] == r@[i]@);
        assert(circuit@[i] == circuit.public_input@[i]@);
    }
    assert(without@.len() == without.public_input@.len());
    assert(blank@.len() == blank.public_input@.len());
}

/// What an arrangement holds is what its fields hold.
pub proof fn law_arrangement_is_its_fields(meta: Arrangement)
    ensures
        meta@.num_advice_columns == meta.num_advice_columns,
        meta@.num_instance_columns == meta.num_instance_columns,
        meta@.num_selectors == meta.num_selectors,
        meta@.equality == meta.equality@,
        meta@.gates.len() == meta.gates@.len(),
        forall|i: int|
            0 <= i < meta.gates@.len() ==> (#[trigger] meta@.gates[i]).name == meta.gates@[i].name@
                && meta@.gates[i].polys == meta.gates@[i].polys@,
{
}

/// A new advice column is numbered by those before it, and nothing else changes.
pub proof fn law_advice_columns_are_numbered(meta: &mut Arrangement, column: AdviceColumn)
    requires
        call_ensures(Arrangement::advice_column, (meta,), column),
    ensures
        column.index == old(meta).num_advice_columns,
        final(meta).num_advice_columns == old(meta).num_advice_columns + 1,
        final(meta)@.num_instance_columns == old(meta)@.num_instance_columns,
        final(meta)@.num_selectors == old(meta)@.num_selectors,
        final(meta)@.equality == old(meta)@.equality,
        final(meta)@.gates == old(meta)@.gates,
{
}

/// A new instance column is numbered by those before it, and nothing else changes.
pub proof fn law_instance_columns_are_numbered(meta: &mut Arrangement, column: InstanceColumn)
    requires
        call_ensures(Arrangement::instance_column, (meta,), column),
    ensures
        column.index == old(meta).num_instance_columns,
        final(meta).num_instance_columns == old(meta).num_instance_columns + 1,
        final(meta)@.num_advice_columns == old(meta)@.num_advice_columns,
        final(meta)@.num_selectors == old(meta)@.num_selectors,
        final(meta)@.equality == old(meta)@.equality,
        final(meta)@.gates == old(meta)@.gates,
{
}

/// A new selector is numbered by those before it, and nothing else changes.
pub proof fn law_selectors_are_numbered(meta: &mut Arrangement, selector: Selector)
    requires
        call_ensures(Arrangement::selector, (meta,), selector),
    ensures
        selector.index == old(meta).num_selectors,
        final(meta).num_selectors == old(meta).num_selectors + 1,
        final(meta)@.num_advice_columns == old(meta)@.num_advice_columns,
        final(meta)@.num_instance_columns == old(meta)@.num_instance_columns,
        final(meta)@.equality == old(meta)@.equality,
        final(meta)@.gates == old(meta)@.gates,
{
}

/// Enabling equality appends the column to those that allow it, and changes nothing else.
pub proof fn law_equality_is_appended(meta: &mut Arrangement, column: AnyColumn)
    requires
        call_ensures(Arrangement::enable_equality, (meta, column), ()),
    ensures
        final(meta).equality@ == old(meta).equality@.push(column),
        final(meta).num_advice_columns == old(meta).num_advice_columns,
        final(meta).num_instance_columns == old(meta).num_instance_columns,
        final(meta).num_selectors == old(meta).num_selectors,
        final(meta)@.gates == old(meta)@.gates,
{
}

/// A gate is appended as it is given, and nothing else changes.
pub proof fn law_gate_is_appended(
    meta: &mut Arrangement,
    name: &'static str,
    polys: Vec<Expression>,
)
    requires
        call_ensures(Arrangement::create_gate, (meta, name, polys), ()),
    ensures
        final(meta).gates@.len() == old(meta).gates@.len() + 1,
        final(meta).gates@.last().name@ == name@,
        final(meta).gates@.last().polys@ == polys@,
        forall|i: int|
            0 <= i < old(meta).gates@.len() ==> (#[trigger] final(meta).gates@[i]).name@ == old(meta).gates@[i].name@ && final(meta).gates@[i].polys@ == old(meta).gates@[i].polys@,
        final(meta).equality@ == old(meta).equality@,
        final(meta).num_advice_columns == old(meta).num_advice_columns,
        final(meta).num_instance_columns == old(meta).num_instance_columns,
        final(meta).num_selectors == old(meta).num_selectors,
{
    law_arrangement_is_its_fields(*old(meta));
    law_arrangement_is_its_fields(*final(meta));
    let before = old(meta)@.gates;
    let after = final(meta)@.gates;
    assert(after[before.len() as int].name == name@);
    assert forall|i: int| 0 <= i < old(meta).gates@.len() implies (#[trigger] final(meta).gates@[i]).name@ == old(meta).gates@[i].name@ && final(meta).gates@[i].polys@ == old(meta).gates@[i].polys@ by {
        assert(after[i] == before[i]);
    }
}

/// What a request is, is what its fields hold.
pub proof fn law_placement_is_its_fields(placement: Placement)
    ensures
        placement@.namespaces.len() == placement.namespaces@.len(),
        forall|i: int|
            0 <= i < placement.namespaces@.len() ==> #[trigger] placement@.namespaces[i]
                == placement.namespaces@[i]@,
        match placement.action {
            Action::AssignRegion { name, steps } => placement@.action is AssignRegion
                && placement@.action->name == name@ && placement@.action->steps == steps@,
            Action::ConstrainInstance { cell, instance, row } => placement@.action
                is ConstrainInstance && placement@.action->cell == cell
                && placement@.action->instance == instance && placement@.action->row == row,
        },
{
}

/// What a layout holds is what its fields hold.
pub proof fn law_layout_is_its_fields(layout: Layout)
    ensures
        layout@.namespaces.len() == layout.namespaces@.len(),
        forall|i: int|
            0 <= i < layout.namespaces@.len() ==> #[trigger] layout@.namespaces[i]
                == layout.namespaces@[i]@,
        layout@.placements.len() == layout.placements@.len(),
        layout@.placements.len() <= usize::MAX,
        forall|i: int|
            0 <= i < layout.placements@.len() ==> #[trigger] layout@.placements[i]
                == layout.placements@[i]@,
{
    assert(layout.placements.len() == layout.placements@.len());
}

/// A namespace that is entered and left leaves the layout as it was, and requests made inside
/// carry its name behind the names of those outside it.
pub proof fn law_namespaces_nest(layout: &mut Layout, name: &'static str, later: &mut Layout)
    requires
        call_ensures(Layout::enter_namespace, (layout, name), ()),
        old(later)@.namespaces == final(layout)@.namespaces,
        call_ensures(Layout::leave_namespace, (later,), ()),
    ensures
        final(layout)@.namespaces.len() == old(layout)@.namespaces.len() + 1,
        final(layout)@.namespaces.last() == name@,
        final(layout)@.namespaces.drop_last() == old(layout)@.namespaces,
        final(later)@.namespaces == old(layout)@.namespaces,
        final(layout)@.placements == old(layout)@.placements,
        final(later)@.placements == old(later)@.placements,
{
    assert(old(layout)@.namespaces.push(name@).drop_last() == old(layout)@.namespaces);
}

/// A region is requested as it is given, in the present namespaces and after all requests
/// before; its position is the one announced.
pub proof fn law_region_is_requested(
    layout: &mut Layout,
    position: usize,
    name: &'static str,
    steps: Vec<RegionStep>,
)
    requires
        call_ensures(Layout::next_region, (&*old(layout),), position),
        call_ensures(Layout::assign_region, (layout, name, steps), ()),
    ensures
        position == old(layout).placements@.len(),
        final(layout).placements@.len() == old(layout).placements@.len() + 1,
        forall|i: int|
            0 <= i < position ==> #[trigger] final(layout).placements@[i]@ == old(layout).placements@[i]@,
        final(layout).placements@[position as int]@.namespaces == old(layout)@.namespaces,
        final(layout).placements@[position as int].action matches Action::AssignRegion {
            name: given,
            steps: requested,
        } && given@ == name@ && requested@ == steps@,
        final(layout)@.namespaces == old(layout)@.namespaces,
{
    law_layout_is_its_fields(*old(layout));
    law_layout_is_its_fields(*final(layout));
    law_placement_is_its_fields(final(layout).placements@[position as int]);
    assert(final(layout)@.placements[position as int] == final(layout).placements@[position as int]@);
    assert forall|i: int| 0 <= i < position implies #[trigger] final(layout).placements@[i]@ == old(layout).placements@[i]@ by {
        assert(final(layout)@.placements[i] == old(layout)@.placements[i]);
    }
}

/// A tie to a public value is requested as it is given, in the present namespaces and after all
/// requests before.
pub proof fn law_tie_is_requested(
    layout: &mut Layout,
    cell: Cell,
    instance: InstanceColumn,
    row: usize,
)
    requires
        call_ensures(Layout::constrain_instance, (layout, cell, instance, row), ()),
    ensures
        final(layout).placements@.len() == old(layout).placements@.len() + 1,
        forall|i: int|
            0 <= i < old(layout).placements@.len() ==> #[trigger] final(layout).placements@[i]@
                == old(layout).placements@[i]@,
        final(layout).placements@.last()@.namespaces == old(layout)@.namespaces,
        final(layout).placements@.last().action == (Action::ConstrainInstance {
            cell,
            instance,
            row,
        }),
        final(layout)@.namespaces == old(layout)@.namespaces,
{
    law_layout_is_its_fields(*old(layout));
    law_layout_is_its_fields(*final(layout));
    law_placement_is_its_fields(final(layout).placements@.last());
    assert(final(layout)@.placements.last() == final(layout).placements@.last()@);
    assert forall|i: int| 0 <= i < old(layout).placements@.len() implies #[trigger] final(layout).placements@[i]@ == old(layout).placements@[i]@ by {
        assert(final(layout)@.placements[i] == old(layout)@.placements[i]);
    }
}

/// New arrangements and layouts are empty.
pub proof fn law_new_plans_are_empty(meta: Arrangement, layout: Layout)
    requires
        call_ensures(Arrangement::new, (), meta),
        call_ensures(Layout::new, (), layout),
    ensures
        meta.num_advice_columns == 0,
        meta.num_instance_columns == 0,
        meta.num_selectors == 0,
        meta.equality@.len() == 0,
        meta.gates@.len() == 0,
        layout.namespaces@.len() == 0,
        layout.placements@.len() == 0,
{
    law_arrangement_is_its_fields(meta);
    law_layout_is_its_fields(layout);
}

/// What a polynomial is worth: sums, products and negatives are those of numbers, and columns
/// and selectors are read off the row.
pub proof fn law_polynomials_are_evaluated(
    left: Expression,
    right: Expression,
    selector: Selector,
    column: AdviceColumn,
    selectors: spec_fn(Selector) -> int,
    advice: spec_fn(AdviceColumn) -> int,
)
    ensures
        Expression::Selector(selector).evaluate(selectors, advice) == selectors(selector),
        Expression::Advice(column).evaluate(selectors, advice) == advice(column),
        Expression::Negated(Box::new(left)).evaluate(selectors, advice) + left.evaluate(
            selectors,
            advice,
        ) == 0,
        Expression::Sum(Box::new(left), Box::new(right)).evaluate(selectors, advice)
            == left.evaluate(selectors, advice) + right.evaluate(selectors, advice),
        Expression::Product(Box::new(left), Box::new(right)).evaluate(selectors, advice)
            == left.evaluate(selectors, advice) * right.evaluate(selectors, advice),
{
}

/// A configuration takes the next three advice columns, the next instance column and the next
/// selector, lets exactly these columns be copied, and adds one gate, after all that there was.
/// Its one polynomial is the selector times `a + b - c`.
pub proof fn law_configuration_adds_one_addition_gate<F>(
    meta: &mut Arrangement,
    config: FibonacciConfig,
)
    requires
        call_ensures(FibonacciChip::<F>::configure, (meta,), config),
    ensures
        config.col_a.index == old(meta).num_advice_columns,
        config.col_b.index == old(meta).num_advice_columns + 1,
        config.col_c.index == old(meta).num_advice_columns + 2,
        config.instance.index == old(meta).num_instance_columns,
        config.selector.index == old(meta).num_selectors,
        final(meta).num_advice_columns == old(meta).num_advice_columns + 3,
        final(meta).num_instance_columns == old(meta).num_instance_columns + 1,
        final(meta).num_selectors == old(meta).num_selectors + 1,
        final(meta).equality@ == old(meta).equality@ + seq![
            AnyColumn::Advice(config.col_a),
            AnyColumn::Advice(config.col_b),
            AnyColumn::Advice(config.col_c),
            AnyColumn::Instance(config.instance),
        ],
        final(meta).gates@.len() == old(meta).gates@.len() + 1,
        forall|i: int|
            0 <= i < old(meta).gates@.len() ==> (#[trigger] final(meta).gates@[i]).name@ == old(meta).gates@[i].name@ && final(meta).gates@[i].polys@ == old(meta).gates@[i].polys@,
        final(meta).gates@.last().name@ == "add"@,
        final(meta).gates@.last().polys@ == seq![
            Expression::Product(
                Box::new(Expression::Selector(config.selector)),
                Box::new(
                    Expression::Sum(
                        Box::new(
                            Expression::Sum(
                                Box::new(Expression::Advice(config.col_a)),
                                Box::new(Expression::Advice(config.col_b)),
                            ),
                        ),
                        Box::new(
                            Expression::Negated(Box::new(Expression::Advice(config.col_c))),
                        ),
                    ),
                ),
            ),
        ],
        forall|selectors: spec_fn(Selector) -> int, advice: spec_fn(AdviceColumn) -> int|
            #[trigger] final(meta).gates@.last().polys@[0].evaluate(selectors, advice) == selectors(
                config.selector,
            ) * (advice(config.col_a) + advice(config.col_b) - advice(config.col_c)),
{
    law_arrangement_is_its_fields(*old(meta));
    law_arrangement_is_its_fields(*final(meta));
    let before = old(meta)@.gates;
    let after = final(meta)@.gates;
    assert(after[before.len() as int].name == "add"@);
    assert(after[before.len() as int].polys == final(meta).gates@.last().polys@);
    assert forall|i: int| 0 <= i < old(meta).gates@.len() implies (#[trigger] final(meta).gates@[i]).name@ == old(meta).gates@[i].name@ && final(meta).gates@[i].polys@ == old(meta).gates@[i].polys@ by {
        assert(after[i] == before[i]);
    }
    reveal_with_fuel(Expression::evaluate, 5);
}

/// What a step does to the values that are known: a public value is taken as it is read, a copy
/// takes what its source carries, a sum is that of the two values that its terms carry modulo
/// the field's order, and known exactly if both are. No other value changes.
pub proof fn law_step_assigns_its_value(
    witness: &mut Witness,
    region: usize,
    index: usize,
    step: RegionStep,
    public: Option<Scalar>,
    r: Option<Scalar>,
    other: AssignedCell,
)
    requires
        call_ensures(Witness::assign, (witness, region, index, &step, public), r),
    ensures
        match step {
            RegionStep::EnableSelector { .. } => {
                &&& r is None
                &&& (final(witness)@)(other) == (old(witness)@)(other)
            },
            RegionStep::AdviceFromInstance { advice, offset, .. } => {
                let cell = Cell { region, column: advice, offset };
                &&& r is Some <==> public is Some
                &&& r is Some ==> r->0@ == public->0@
                &&& other == (AssignedCell { cell, step: index }) ==> ((final(witness)@)(other) is Some
                    <==> r is Some) && (r is Some ==> (final(witness)@)(other) == Some(r->0@))
                &&& other != (AssignedCell { cell, step: index }) ==> (final(witness)@)(other) == (
                old(witness)@)(other)
            },
            RegionStep::CopyAdvice { source, advice, offset, .. } => {
                let cell = Cell { region, column: advice, offset };
                &&& r is Some <==> (old(witness)@)(source) is Some
                &&& r is Some ==> (old(witness)@)(source) == Some(r->0@)
                &&& other == (AssignedCell { cell, step: index }) ==> ((final(witness)@)(other) is Some
                    <==> r is Some) && (r is Some ==> (final(witness)@)(other) == Some(r->0@))
                &&& other != (AssignedCell { cell, step: index }) ==> (final(witness)@)(other) == (
                old(witness)@)(other)
            },
            RegionStep::AdviceSum { left, right, advice, offset, .. } => {
                let cell = Cell { region, column: advice, offset };
                &&& r is Some <==> (old(witness)@)(left) is Some && (old(witness)@)(right) is Some
                &&& r is Some ==> r->0@ == ((old(witness)@)(left)->0 + (old(witness)@)(right)->0)
                    % modulus()
                &&& other == (AssignedCell { cell, step: index }) ==> ((final(witness)@)(other) is Some
                    <==> r is Some) && (r is Some ==> (final(witness)@)(other) == Some(r->0@))
                &&& other != (AssignedCell { cell, step: index }) ==> (final(witness)@)(other) == (
                old(witness)@)(other)
            },
        },
{
}

/// What is read back is what was assigned: after a step, its cell has the value that the step
/// returned, any other cell has the value that it had, and before any step no value is known.
pub proof fn law_assigned_values_are_read_back(
    fresh: Witness,
    cell: AssignedCell,
    unknown: Option<Scalar>,
    witness: &mut Witness,
    region: usize,
    index: usize,
    step: RegionStep,
    public: Option<Scalar>,
    r: Option<Scalar>,
    assigned: AssignedCell,
    after: Option<Scalar>,
    other: AssignedCell,
    other_before: Option<Scalar>,
    other_after: Option<Scalar>,
)
    requires
        call_ensures(Witness::new, (), fresh),
        call_ensures(Witness::value_of, (&fresh, &cell), unknown),
        call_ensures(Witness::assign, (witness, region, index, &step, public), r),
        match step {
            RegionStep::EnableSelector { .. } => false,
            RegionStep::AdviceFromInstance { advice, offset, .. } => assigned.cell == (Cell {
                region,
                column: advice,
                offset,
            }),
            RegionStep::CopyAdvice { advice, offset, .. } => assigned.cell == (Cell {
                region,
                column: advice,
                offset,
            }),
            RegionStep::AdviceSum { advice, offset, .. } => assigned.cell == (Cell {
                region,
                column: advice,
                offset,
            }),
        },
        assigned.step == index,
        call_ensures(Witness::value_of, (&*final(witness), &assigned), after),
        other != assigned,
        call_ensures(Witness::value_of, (&*old(witness), &other), other_before),
        call_ensures(Witness::value_of, (&*final(witness), &other), other_after),
    ensures
        unknown is None,
        after == r,
        other_after == other_before,
{
    law_step_assigns_its_value(witness, region, index, step, public, r, assigned);
    law_step_assigns_its_value(witness, region, index, step, public, r, other);
    if r is Some {
        law_scalar_is_its_number(r->0, after->0);
    }
    if other_before is Some {
        law_scalar_is_its_number(other_before->0, other_after->0);
    }
}

/// A witness that takes the steps of a region one by one, with the public values that they
/// read, holds the values of a replay.
pub proof fn law_witness_follows_a_replay(
    witness: &mut Witness,
    region: usize,
    index: usize,
    steps: Seq<RegionStep>,
    before: spec_fn(AssignedCell) -> Option<nat>,
    columns: Seq<Seq<nat>>,
    public: Option<Scalar>,
    r: Option<Scalar>,
)
    requires
        index < steps.len(),
        old(witness)@ == after_steps(steps, index as nat, region, before, columns, modulus()),
        public is Some <==> read_by(steps[index as int], columns) is Some,
        public is Some ==> read_by(steps[index as int], columns) == Some(public->0@),
        call_ensures(Witness::assign, (witness, region, index, &steps[index as int], public), r),
    ensures
        final(witness)@ == after_steps(
            steps,
            index as nat + 1,
            region,
            before,
            columns,
            modulus(),
        ),
{
}

/// The first row, wherever it is laid out: one region after all requests before, in the present
/// namespaces. Its three cells lie in one row of the chip's columns. They carry the first public
/// value, the second one and their sum; the first two are tied to the public values, the sum is
/// tied to nothing, and the chip's selector alone is on, in that row alone.
pub proof fn law_first_row_adds_the_public_values<F>(
    config: FibonacciConfig,
    chip: FibonacciChip<F>,
    layouter: &mut Layout,
    cells: (AssignedCell, AssignedCell, AssignedCell),
    steps: Vec<RegionStep>,
    table: spec_fn(Cell) -> nat,
    columns: Seq<Seq<nat>>,
)
    requires
        call_ensures(FibonacciChip::<F>::construct, (config,), chip),
        call_ensures(FibonacciChip::<F>::assign_first_row, (&chip, layouter), cells),
        final(layouter).placements@.last().action matches Action::AssignRegion {
            steps: laid_out,
            ..
        } ==> steps == laid_out,
    ensures
        final(layouter)@.namespaces == old(layouter)@.namespaces,
        final(layouter).placements@.len() == old(layouter).placements@.len() + 1,
        forall|i: int|
            0 <= i < old(layouter).placements@.len() ==> #[trigger] final(layouter).placements@[i]@
                == old(layouter).placements@[i]@,
        final(layouter).placements@.last()@.namespaces == old(layouter)@.namespaces,
        final(layouter).placements@.last().action matches Action::AssignRegion { name, .. }
            && name@ == "first row"@,
        cells.0.cell.region == old(layouter).placements@.len(),
        cells.1.cell.region == old(layouter).placements@.len(),
        cells.2.cell.region == old(layouter).placements@.len(),
        cells.0.cell.column == config.col_a,
        cells.1.cell.column == config.col_b,
        cells.2.cell.column == config.col_c,
        cells.0.cell.offset == 0,
        cells.1.cell.offset == 0,
        cells.2.cell.offset == 0,
        cells.0 != cells.1,
        cells.0 != cells.2,
        cells.1 != cells.2,
        steps@ == seq![
            RegionStep::EnableSelector { selector: config.selector, offset: 0 },
            RegionStep::AdviceFromInstance {
                annotation: "f(0)",
                instance: config.instance,
                row: 0,
                advice: config.col_a,
                offset: 0,
            },
            RegionStep::AdviceFromInstance {
                annotation: "f(1)",
                instance: config.instance,
                row: 1,
                advice: config.col_b,
                offset: 0,
            },
            RegionStep::AdviceSum {
                annotation: "a + b",
                left: cells.0,
                right: cells.1,
                advice: config.col_c,
                offset: 0,
            },
        ],
        forall|
            values: spec_fn(AssignedCell) -> Option<nat>,
            public: Seq<Seq<nat>>,
            p: nat,
            cell: AssignedCell,
        |
            #[trigger] after_steps(
                steps@,
                steps@.len(),
                cells.0.cell.region,
                values,
                public,
                p,
            )(cell) == if cell == cells.0 {
                Some(public[config.instance.index as int][0])
            } else if cell == cells.1 {
                Some(public[config.instance.index as int][1])
            } else if cell == cells.2 {
                Some(
                    (public[config.instance.index as int][0]
                        + public[config.instance.index as int][1]) % p,
                )
            } else {
                values(cell)
            },
        (forall|k: int|
            0 <= k < steps@.len() ==> equality_holds(
                #[trigger] steps@[k],
                cells.0.cell.region,
                table,
                columns,
            )) <==> (table(cells.0.cell) == columns[config.instance.index as int][0] && table(
            cells.1.cell,
        ) == columns[config.instance.index as int][1]),
        forall|offset: usize, selector: Selector| #[trigger]
            selectors_at(steps@, offset)(selector) == if selector == config.selector && offset
                == 0 {
                1int
            } else {
                0int
            },
{
    law_layout_is_its_fields(*old(layouter));
    law_layout_is_its_fields(*final(layouter));
    let region = old(layouter).placements@.len() as usize;
    law_placement_is_its_fields(final(layouter).placements@.last());
    assert(final(layouter)@.placements.last() == final(layouter).placements@.last()@);
    assert forall|i: int| 0 <= i < old(layouter).placements@.len() implies #[trigger] final(layouter).placements@[i]@ == old(layouter).placements@[i]@ by {
        assert(final(layouter)@.placements[i] == old(layouter)@.placements[i]);
    }
    assert(steps@ == config.first_row(region)->steps);
    assert(steps@[0] == RegionStep::EnableSelector { selector: config.selector, offset: 0 });
    reveal_with_fuel(after_steps, 5);
    if forall|k: int|
        0 <= k < steps@.len() ==> equality_holds(
            #[trigger] steps@[k],
            cells.0.cell.region,
            table,
            columns,
        ) {
        assert(equality_holds(steps@[1], region, table, columns));
        assert(equality_holds(steps@[2], region, table, columns));
    }
}

/// A further row, wherever it is laid out: one region after all requests before, in the present
/// namespaces. It holds the two terms that are handed in and their sum, each in its column of
/// one row. The two terms are tied to the cells that they come from, the sum is tied to nothing,
/// and the chip's selector alone is on, in that row alone.
pub proof fn law_next_row_adds_two_terms<F>(
    config: FibonacciConfig,
    chip: FibonacciChip<F>,
    layouter: &mut Layout,
    prev_b: AssignedCell,
    prev_c: AssignedCell,
    sum: AssignedCell,
    steps: Vec<RegionStep>,
    table: spec_fn(Cell) -> nat,
    columns: Seq<Seq<nat>>,
)
    requires
        call_ensures(FibonacciChip::<F>::construct, (config,), chip),
        call_ensures(FibonacciChip::<F>::assign_row, (&chip, layouter, &prev_b, &prev_c), sum),
        final(layouter).placements@.last().action matches Action::AssignRegion {
            steps: laid_out,
            ..
        } ==> steps == laid_out,
    ensures
        final(layouter)@.namespaces == old(layouter)@.namespaces,
        final(layouter).placements@.len() == old(layouter).placements@.len() + 1,
        forall|i: int|
            0 <= i < old(layouter).placements@.len() ==> #[trigger] final(layouter).placements@[i]@
                == old(layouter).placements@[i]@,
        final(layouter).placements@.last()@.namespaces == old(layouter)@.namespaces,
        final(layouter).placements@.last().action matches Action::AssignRegion { name, .. }
            && name@ == "next row"@,
        sum.cell.region == old(layouter).placements@.len(),
        sum.cell.column == config.col_c,
        sum.cell.offset == 0,
        steps@ == seq![
            RegionStep::EnableSelector { selector: config.selector, offset: 0 },
            RegionStep::CopyAdvice {
                annotation: "a",
                source: prev_b,
                advice: config.col_a,
                offset: 0,
            },
            RegionStep::CopyAdvice {
                annotation: "b",
                source: prev_c,
                advice: config.col_b,
                offset: 0,
            },
            RegionStep::AdviceSum {
                annotation: "c",
                left: prev_b,
                right: prev_c,
                advice: config.col_c,
                offset: 0,
            },
        ],
        prev_b.cell.region < sum.cell.region && prev_c.cell.region < sum.cell.region ==> forall|
            values: spec_fn(AssignedCell) -> Option<nat>,
            public: Seq<Seq<nat>>,
            p: nat,
        |
            {
                let after = #[trigger] after_steps(
                    steps@,
                    steps@.len(),
                    sum.cell.region,
                    values,
                    public,
                    p,
                );
                &&& after(sum) == match (values(prev_b), values(prev_c)) {
                    (Some(b), Some(c)) => Some((b + c) % p),
                    _ => None,
                }
                &&& forall|cell: AssignedCell|
                    cell.cell.region != sum.cell.region ==> #[trigger] after(cell) == values(cell)
            },
        (forall|k: int|
            0 <= k < steps@.len() ==> equality_holds(
                #[trigger] steps@[k],
                sum.cell.region,
                table,
                columns,
            )) <==> (table(Cell { column: config.col_a, ..sum.cell }) == table(prev_b.cell)
            && table(Cell { column: config.col_b, ..sum.cell }) == table(prev_c.cell)),
        forall|offset: usize, selector: Selector| #[trigger]
            selectors_at(steps@, offset)(selector) == if selector == config.selector && offset
                == 0 {
                1int
            } else {
                0int
            },
{
    law_layout_is_its_fields(*old(layouter));
    law_layout_is_its_fields(*final(layouter));
    let region = old(layouter).placements@.len() as usize;
    law_placement_is_its_fields(final(layouter).placements@.last());
    assert(final(layouter)@.placements.last() == final(layouter).placements@.last()@);
    assert forall|i: int| 0 <= i < old(layouter).placements@.len() implies #[trigger] final(layouter).placements@[i]@ == old(layouter).placements@[i]@ by {
        assert(final(layouter)@.placements[i] == old(layouter)@.placements[i]);
    }
    assert(steps@ == config.next_row(prev_b, prev_c)->steps);
    assert(sum.cell.region == region);
    let a = Cell { region, column: config.col_a, offset: 0 };
    let b = Cell { region, column: config.col_b, offset: 0 };
    assert(Cell { column: config.col_a, ..sum.cell } == a);
    assert(Cell { column: config.col_b, ..sum.cell } == b);
    assert(steps@[0] == RegionStep::EnableSelector { selector: config.selector, offset: 0 });
    reveal_with_fuel(after_steps, 5);
    if forall|k: int|
        0 <= k < steps@.len() ==> equality_holds(
            #[trigger] steps@[k],
            sum.cell.region,
            table,
            columns,
        ) {
        assert(equality_holds(steps@[1], region, table, columns));
        assert(equality_holds(steps@[2], region, table, columns));
    }
}

/// A copy of a chip lays out what the chip lays out.
pub proof fn law_copied_chip_is_the_chip<F>(
    config: FibonacciConfig,
    chip: FibonacciChip<F>,
    copy: FibonacciChip<F>,
    other: FibonacciConfig,
    another: FibonacciChip<F>,
)
    requires
        call_ensures(FibonacciChip::<F>::construct, (config,), chip),
        call_ensures(<FibonacciChip<F> as Clone>::clone, (&chip,), copy),
        call_ensures(FibonacciChip::<F>::construct, (other,), another),
    ensures
        copy == chip,
        another == chip ==> other == config,
{
}

/// An exposed cell is tied to the public value of the given row, and to nothing else.
pub proof fn law_exposed_cell_is_tied_once<F>(
    config: FibonacciConfig,
    chip: FibonacciChip<F>,
    layouter: &mut Layout,
    cell: AssignedCell,
    row: usize,
)
    requires
        call_ensures(FibonacciChip::<F>::construct, (config,), chip),
        call_ensures(FibonacciChip::<F>::expose_public, (&chip, layouter, &cell, row), ()),
    ensures
        final(layouter)@.namespaces == old(layouter)@.namespaces,
        final(layouter).placements@.len() == old(layouter).placements@.len() + 1,
        forall|i: int|
            0 <= i < old(layouter).placements@.len() ==> #[trigger] final(layouter).placements@[i]@
                == old(layouter).placements@[i]@,
        final(layouter).placements@.last()@.namespaces == old(layouter)@.namespaces,
        final(layouter).placements@.last().action == (Action::ConstrainInstance {
            cell: cell.cell,
            instance: config.instance,
            row,
        }),
{
    law_layout_is_its_fields(*old(layouter));
    law_layout_is_its_fields(*final(layouter));
    law_placement_is_its_fields(final(layouter).placements@.last());
    assert(final(layouter)@.placements.last() == final(layouter).placements@.last()@);
    assert forall|i: int| 0 <= i < old(layouter).placements@.len() implies #[trigger] final(layouter).placements@[i]@ == old(layouter).placements@[i]@ by {
        assert(final(layouter)@.placements[i] == old(layouter)@.placements[i]);
    }
}

/// A circuit lays out nine requests after all requests before, and leaves the namespaces as
/// they were: a row that reads the first two public values, seven rows that copy and add the
/// two terms before them, and one tie of the last sum to the third public value. Neither the
/// public values of the circuit nor the namespaces that it is laid out in change any of this.
pub proof fn law_circuit_lays_out_eight_rows_and_one_tie<F>(
    circuit: FibonacciCircuit<F>,
    config: FibonacciConfig,
    layouter: &mut Layout,
    row: int,
)
    requires
        call_ensures(FibonacciCircuit::<F>::synthesize, (&circuit, config, layouter), ()),
        0 <= row < 9,
    ensures
        final(layouter)@.namespaces == old(layouter)@.namespaces,
        final(layouter).placements@.len() == old(layouter).placements@.len() + 9,
        forall|i: int|
            0 <= i < old(layouter).placements@.len() ==> #[trigger] final(layouter).placements@[i]@
                == old(layouter).placements@[i]@,
        ({
            let base = old(layouter).placements@.len();
            let placement = final(layouter).placements@[base + row];
            let a = Cell { region: (base + row) as usize, column: config.col_a, offset: 0 };
            let b = Cell { region: (base + row) as usize, column: config.col_b, offset: 0 };
            let last = AssignedCell {
                cell: Cell { region: (base + row - 1) as usize, column: config.col_c, offset: 0 },
                step: 3,
            };
            let last_but_one = if row == 1 {
                AssignedCell {
                    cell: Cell { region: base as usize, column: config.col_b, offset: 0 },
                    step: 2,
                }
            } else {
                AssignedCell {
                    cell: Cell {
                        region: (base + row - 2) as usize,
                        column: config.col_c,
                        offset: 0,
                    },
                    step: 3,
                }
            };
            &&& base + 9 <= usize::MAX
            &&& placement@.namespaces.len() == old(layouter)@.namespaces.len() + 1
            &&& placement@.namespaces.drop_last() == old(layouter)@.namespaces
            &&& row == 0 ==> {
                &&& placement@.namespaces.last() == "first row"@
                &&& placement.action matches Action::AssignRegion { name, steps } && name@
                    == "first row"@ && steps@ == seq![
                    RegionStep::EnableSelector { selector: config.selector, offset: 0 },
                    RegionStep::AdviceFromInstance {
                        annotation: "f(0)",
                        instance: config.instance,
                        row: 0,
                        advice: config.col_a,
                        offset: 0,
                    },
                    RegionStep::AdviceFromInstance {
                        annotation: "f(1)",
                        instance: config.instance,
                        row: 1,
                        advice: config.col_b,
                        offset: 0,
                    },
                    RegionStep::AdviceSum {
                        annotation: "a + b",
                        left: AssignedCell { cell: a, step: 1 },
                        right: AssignedCell { cell: b, step: 2 },
                        advice: config.col_c,
                        offset: 0,
                    },
                ]
            }
            &&& 0 < row < 8 ==> {
                &&& placement@.namespaces.last() == "next row"@
                &&& placement.action matches Action::AssignRegion { name, steps } && name@
                    == "next row"@ && steps@ == seq![
                    RegionStep::EnableSelector { selector: config.selector, offset: 0 },
                    RegionStep::CopyAdvice {
                        annotation: "a",
                        source: last_but_one,
                        advice: config.col_a,
                        offset: 0,
                    },
                    RegionStep::CopyAdvice {
                        annotation: "b",
                        source: last,
                        advice: config.col_b,
                        offset: 0,
                    },
                    RegionStep::AdviceSum {
                        annotation: "c",
                        left: last_but_one,
                        right: last,
                        advice: config.col_c,
                        offset: 0,
                    },
                ]
            }
            &&& row == 8 ==> {
                &&& placement@.namespaces.last() == "out"@
                &&& placement.action == (Action::ConstrainInstance {
                    cell: last.cell,
                    instance: config.instance,
                    row: 2,
                })
            }
        }),
{
    law_layout_is_its_fields(*old(layouter));
    law_layout_is_its_fields(*final(layouter));
    let base = old(layouter).placements@.len();
    let outer = old(layouter)@.namespaces;
    let placement = final(layouter).placements@[base + row];
    let laid_out = final(layouter)@.placements[base + row];
    assert(laid_out == placement@);
    law_placement_is_its_fields(placement);
    if row < 8 {
        assert(laid_out == config.rows(outer, base, 8)[row]);
    } else {
        assert(laid_out == config.output(outer, base));
    }
    assert forall|i: int| 0 <= i < old(layouter).placements@.len() implies #[trigger] final(layouter).placements@[i]@ == old(layouter).placements@[i]@ by {
        assert(final(layouter)@.placements[i] == old(layouter)@.placements[i]);
    }
    assert(outer.push("first row"@).drop_last() == outer);
    assert(outer.push("next row"@).drop_last() == outer);
    assert(outer.push("out"@).drop_last() == outer);
}

/// Two circuits that are laid out with one configuration, after equally many requests, make
/// the same requests, whatever their public values and whatever the namespaces around them.
pub proof fn law_layouts_agree<F, G>(
    circuit: FibonacciCircuit<F>,
    other: FibonacciCircuit<G>,
    config: FibonacciConfig,
    layouter: &mut Layout,
    elsewhere: &mut Layout,
    i: int,
)
    requires
        call_ensures(FibonacciCircuit::<F>::synthesize, (&circuit, config, layouter), ()),
        call_ensures(FibonacciCircuit::<G>::synthesize, (&other, config, elsewhere), ()),
        old(layouter).placements@.len() == old(elsewhere).placements@.len(),
        old(layouter).placements@.len() <= i < final(layouter).placements@.len(),
    ensures
        final(layouter).placements@.len() == final(elsewhere).placements@.len(),
        final(layouter).placements@[i].action@ == final(elsewhere).placements@[i].action@,
{
    let base = old(layouter).placements@.len();
    law_layout_is_its_fields(*old(layouter));
    law_layout_is_its_fields(*final(layouter));
    law_layout_is_its_fields(*old(elsewhere));
    law_layout_is_its_fields(*final(elsewhere));
    assert(final(layouter)@.placements[i] == final(layouter).placements@[i]@);
    assert(final(elsewhere)@.placements[i] == final(elsewhere).placements@[i]@);
    if i < base + 8 {
        assert(final(layouter)@.placements[i] == config.rows(old(layouter)@.namespaces, base, 8)[i
            - base]);
        assert(final(elsewhere)@.placements[i] == config.rows(
            old(elsewhere)@.namespaces,
            base,
            8,
        )[i - base]);
    }
}

} // verus!
