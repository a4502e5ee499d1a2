use fibonacci_circuit::chip::FibonacciConfig;
use fibonacci_circuit::circuit::FibonacciCircuit;
use fibonacci_circuit::field::Scalar;
use fibonacci_circuit::plan::{
    self, Action, AnyColumn, Arrangement, Layout, Placement, RegionStep,
};
use fibonacci_circuit::protocol::{
    generate_halo2_proof, public_input, verification_outcome, verify_halo2_proof, FibonacciError,
};
use fibonacci_circuit::witness::Witness;
use halo2_proofs::circuit::{AssignedCell, Layouter, Region, SimpleFloorPlanner, Value};
use halo2_proofs::dev::{MockProver, VerifyFailure};
use halo2_proofs::plonk::{
    Advice, Circuit, Column, ConstraintSystem, Error, Expression, Instance, Selector, VirtualCells,
};
use halo2_proofs::poly::Rotation;
use halo2curves::bn256::Fr;
use std::collections::HashMap;

/// The library's form of a field element.
fn to_scalar(value: &Fr) -> Scalar {
    Scalar::from_bytes(value.to_bytes()).expect("the encoding of a field element is canonical")
}

/// The field element that a scalar stands for.
fn from_scalar(value: &Scalar) -> Fr {
    Fr::from_bytes(&value.to_bytes()).expect("the encoding of a scalar is canonical")
}

/// What is inside a value, if it is known.
fn known(value: Value<&Fr>) -> Option<Scalar> {
    let mut found = None;
    let _ = value.map(|inner| found = Some(to_scalar(inner)));
    found
}

/// The columns and selectors of a constraint system, in the order of an arrangement.
#[derive(Clone, Debug)]
struct Handles {
    config: FibonacciConfig,
    advice: Vec<Column<Advice>>,
    instance: Vec<Column<Instance>>,
    selectors: Vec<Selector>,
}

impl Handles {
    /// Carries out an arrangement on a fresh constraint system.
    fn arrange(
        meta: &mut ConstraintSystem<Fr>,
        config: FibonacciConfig,
        arrangement: &Arrangement,
    ) -> Self {
        let handles = Handles {
            config,
            advice: (0..arrangement.num_advice_columns).map(|_| meta.advice_column()).collect(),
            instance: (0..arrangement.num_instance_columns)
                .map(|_| meta.instance_column())
                .collect(),
            selectors: (0..arrangement.num_selectors).map(|_| meta.selector()).collect(),
        };
        for column in &arrangement.equality {
            match column {
                AnyColumn::Advice(column) => meta.enable_equality(handles.advice[column.index]),
                AnyColumn::Instance(column) => {
                    meta.enable_equality(handles.instance[column.index])
                }
            }
        }
        for gate in &arrangement.gates {
            meta.create_gate(gate.name, |cells| {
                gate.polys
                    .iter()
                    .map(|poly| handles.expression(cells, poly))
                    .collect::<Vec<_>>()
            });
        }
        handles
    }

    fn expression(
        &self,
        cells: &mut VirtualCells<'_, Fr>,
        expression: &plan::Expression,
    ) -> Expression<Fr> {
        match expression {
            plan::Expression::Selector(selector) => {
                cells.query_selector(self.selectors[selector.index])
            }
            plan::Expression::Advice(column) => {
                cells.query_advice(self.advice[column.index], Rotation::cur())
            }
            plan::Expression::Negated(inner) => -self.expression(cells, inner),
            plan::Expression::Sum(left, right) => {
                let left = self.expression(cells, left);
                left + self.expression(cells, right)
            }
            plan::Expression::Product(left, right) => {
                let left = self.expression(cells, left);
                left * self.expression(cells, right)
            }
        }
    }
}

/// The assigned cells, each with its form in the layout.
#[derive(Clone, Default)]
struct Cells(Vec<(plan::AssignedCell, AssignedCell<Fr, Fr>)>);

impl Cells {
    /// The assigned cell that the layout calls `cell`.
    fn get(&self, cell: &plan::AssignedCell) -> Result<&AssignedCell<Fr, Fr>, Error> {
        self.find(|assigned| assigned == cell)
    }

    /// An assigned cell at the place that the layout calls `cell`.
    fn at(&self, cell: &plan::Cell) -> Result<&AssignedCell<Fr, Fr>, Error> {
        self.find(|assigned| assigned.cell == *cell)
    }

    fn find(
        &self,
        wanted: impl Fn(&plan::AssignedCell) -> bool,
    ) -> Result<&AssignedCell<Fr, Fr>, Error> {
        self.0
            .iter()
            .find(|(assigned, _)| wanted(assigned))
            .map(|(_, assigned)| assigned)
            .ok_or(Error::Synthesis)
    }
}

/// Carries out the steps of the region at position `position`.
fn assign_steps(
    handles: &Handles,
    position: usize,
    steps: &[RegionStep],
    region: &mut Region<'_, Fr>,
    mut cells: Cells,
    mut witness: Witness,
) -> Result<(Cells, Witness), Error> {
    for (index, step) in steps.iter().enumerate() {
        let (column, offset, assigned) = match step {
            RegionStep::EnableSelector { selector, offset } => {
                handles.selectors[selector.index].enable(region, *offset)?;
                continue;
            }
            RegionStep::AdviceFromInstance {
                annotation,
                instance,
                row,
                advice,
                offset,
            } => {
                let assigned = region.assign_advice_from_instance(
                    || *annotation,
                    handles.instance[instance.index],
                    *row,
                    handles.advice[advice.index],
                    *offset,
                )?;
                witness.assign(position, index, step, known(assigned.value()));
                (*advice, *offset, assigned)
            }
            RegionStep::CopyAdvice {
                annotation,
                source,
                advice,
                offset,
            } => {
                let assigned = cells.get(source)?.copy_advice(
                    || *annotation,
                    region,
                    handles.advice[advice.index],
                    *offset,
                )?;
                witness.assign(position, index, step, None);
                (*advice, *offset, assigned)
            }
            RegionStep::AdviceSum {
                annotation,
                advice,
                offset,
                ..
            } => {
                let value = match witness.assign(position, index, step, None) {
                    Some(scalar) => Value::known(from_scalar(&scalar)),
                    None => Value::unknown(),
                };
                let assigned = region.assign_advice(
                    || *annotation,
                    handles.advice[advice.index],
                    *offset,
                    || value,
                )?;
                (*advice, *offset, assigned)
            }
        };
        cells.0.push((
            plan::AssignedCell {
                cell: plan::Cell {
                    region: position,
                    column,
                    offset,
                },
                step: index,
            },
            assigned,
        ));
    }
    Ok((cells, witness))
}

/// Carries out the request at position `position`, inside `namespaces`.
fn place<L: Layouter<Fr>>(
    handles: &Handles,
    position: usize,
    namespaces: &[&'static str],
    action: &Action,
    layouter: &mut L,
    cells: Cells,
    witness: Witness,
) -> Result<(Cells, Witness), Error> {
    if let Some((outer, inner)) = namespaces.split_first() {
        let mut layouter = layouter.namespace(|| *outer);
        return place(handles, position, inner, action, &mut layouter, cells, witness);
    }
    match action {
        // A layouter may run the closure more than once, so each run starts from copies.
        Action::AssignRegion { name, steps } => layouter.assign_region(
            || *name,
            |mut region| {
                assign_steps(
                    handles,
                    position,
                    steps,
                    &mut region,
                    cells.clone(),
                    witness.clone(),
                )
            },
        ),
        Action::ConstrainInstance {
            cell,
            instance,
            row,
        } => {
            let place = cells.at(cell)?.cell();
            layouter.constrain_instance(place, handles.instance[instance.index], *row)?;
            Ok((cells, witness))
        }
    }
}

/// Carries out a layout.
fn replay(handles: &Handles, layout: &Layout, mut layouter: impl Layouter<Fr>) -> Result<(), Error> {
    let mut cells = Cells::default();
    let mut witness = Witness::new();
    for (position, Placement { namespaces, action }) in layout.placements.iter().enumerate() {
        (cells, witness) =
            place(handles, position, namespaces, action, &mut layouter, cells, witness)?;
    }
    Ok(())
}

/// The library's circuit, as a circuit of `halo2_proofs`.
#[derive(Clone, Debug)]
struct ReplayedCircuit(FibonacciCircuit<Scalar>);

impl Circuit<Fr> for ReplayedCircuit {
    type Config = Handles;
    type FloorPlanner = SimpleFloorPlanner;

    fn without_witnesses(&self) -> Self {
        ReplayedCircuit(self.0.without_witnesses())
    }

    fn configure(meta: &mut ConstraintSystem<Fr>) -> Handles {
        let mut arrangement = Arrangement::new();
        let config = FibonacciCircuit::<Scalar>::configure(&mut arrangement);
        Handles::arrange(meta, config, &arrangement)
    }

    fn synthesize(&self, handles: Handles, layouter: impl Layouter<Fr>) -> Result<(), Error> {
        let mut layout = Layout::new();
        self.0.synthesize(handles.config, &mut layout);
        replay(&handles, &layout, layouter)
    }
}

impl ReplayedCircuit {
    /// The public values, column by column.
    fn public_values(&self) -> Vec<Vec<Fr>> {
        self.0
            .instances()
            .iter()
            .map(|column| column.iter().map(from_scalar).collect())
            .collect()
    }
}

fn scalars(values: &[u64]) -> Vec<Scalar> {
    values.iter().map(|value| Scalar::from_u64(*value)).collect()
}

fn circuit_with(values: &[u64]) -> ReplayedCircuit {
    ReplayedCircuit(FibonacciCircuit {
        public_input: vec![scalars(values)],
    })
}

/// Checks all constraints on sixteen rows, with the given public values.
fn check(circuit: &ReplayedCircuit, public: Vec<Vec<Fr>>) -> Result<(), String> {
    MockProver::run(4, circuit, public)
        .map_err(|error| format!("{:?}", error))?
        .verify()
        .map_err(|failures| format!("{:?}", failures))
}

#[test]
fn fibonacci_circuit_test() {
    let a = Fr::from(1);
    let b = Fr::from(1);
    let public_input = vec![a, b, Fr::from(55)];
    let circuit = ReplayedCircuit(FibonacciCircuit {
        public_input: vec![public_input.iter().map(to_scalar).collect()],
    });

    assert_eq!(check(&circuit, vec![public_input]), Ok(()));

    let invalid_public_input = vec![a, b, Fr::from(56)];
    let failures = MockProver::run(4, &circuit, vec![invalid_public_input])
        .unwrap()
        .verify()
        .unwrap_err();
    // The last sum and the third public value are tied to each other, and differ.
    assert_eq!(failures.len(), 2);
    assert!(failures
        .iter()
        .all(|failure| matches!(failure, VerifyFailure::Permutation { .. })));
}

#[test]
fn fifty_five_is_accepted_and_fifty_six_refused() {
    let good = circuit_with(&[1, 1, 55]);
    assert_eq!(check(&good, good.public_values()), Ok(()));
    let bad = circuit_with(&[1, 1, 56]);
    assert!(check(&bad, bad.public_values()).is_err());
    // The public values that count are those that the proof system is given.
    assert!(check(&good, bad.public_values()).is_err());
    assert_eq!(check(&bad, good.public_values()), Ok(()));
}

#[test]
fn other_starting_terms_have_other_outputs() {
    let circuit = circuit_with(&[2, 5, 212]);
    assert_eq!(check(&circuit, circuit.public_values()), Ok(()));
    let circuit = circuit_with(&[5, 2, 212]);
    assert!(check(&circuit, circuit.public_values()).is_err());
    let circuit = circuit_with(&[0, 0, 0]);
    assert_eq!(check(&circuit, circuit.public_values()), Ok(()));
    // Minus one twice gives minus fifty-five.
    let minus = |x: u64| -Fr::from(x);
    assert_eq!(check(&circuit, vec![vec![minus(1), minus(1), minus(55)]]), Ok(()));
}

#[test]
fn arrangement_replays_as_the_chip_is_documented() {
    let mut replayed = ConstraintSystem::<Fr>::default();
    ReplayedCircuit::configure(&mut replayed);

    let mut direct = ConstraintSystem::<Fr>::default();
    let col_a = direct.advice_column();
    let col_b = direct.advice_column();
    let col_c = direct.advice_column();
    let selector = direct.selector();
    let instance = direct.instance_column();
    direct.enable_equality(col_a);
    direct.enable_equality(col_b);
    direct.enable_equality(col_c);
    direct.enable_equality(instance);
    direct.create_gate("add", |cells| {
        let s = cells.query_selector(selector);
        let a = cells.query_advice(col_a, Rotation::cur());
        let b = cells.query_advice(col_b, Rotation::cur());
        let c = cells.query_advice(col_c, Rotation::cur());
        vec![s * (a + b - c)]
    });
    assert_eq!(
        format!("{:?}", replayed.pinned()),
        format!("{:?}", direct.pinned())
    );
}

#[test]
fn test_helper_functions() {
    let mut input = HashMap::new();
    input.insert("out".to_string(), vec![Scalar::from_u64(55)]);

    let public_input = vec![
        Scalar::from_u64(1),
        Scalar::from_u64(1),
        Scalar::from_u64(55),
    ];

    let (proof, inputs) = generate_halo2_proof(input, prove).unwrap();

    assert_eq!(inputs, public_input);

    let result = verify_halo2_proof(proof, inputs, verify);
    assert_eq!(result.unwrap(), true);
}

#[test]
fn test_bad_proof_not_verified() {
    let mut input = HashMap::new();
    input.insert("out".to_string(), vec![Scalar::from_u64(56)]);

    let invalid_public_input = vec![
        Scalar::from_u64(1),
        Scalar::from_u64(1),
        Scalar::from_u64(56),
    ];

    let (proof, inputs) = generate_halo2_proof(input, prove).unwrap();

    assert_eq!(inputs, invalid_public_input);

    let verified = verify_halo2_proof(proof, inputs, verify).unwrap_or(false);
    assert!(!verified);
}

/// Stands for a prover: its proofs only say which output was proved.
fn prove(circuit: &FibonacciCircuit<Scalar>) -> Vec<u8> {
    assert_eq!(circuit.public_input.len(), 1);
    circuit.public_input[0][2].to_bytes().to_vec()
}

/// Stands for a verifier: it checks the constraints of the circuit itself.
fn verify(proof: &Vec<u8>, columns: &Vec<Vec<Scalar>>) -> Result<(), String> {
    if proof[..] != columns[0][2].to_bytes() {
        return Err("made for another output".to_string());
    }
    let circuit = ReplayedCircuit(FibonacciCircuit {
        public_input: columns.clone(),
    });
    check(&circuit, circuit.public_values())
}

#[test]
fn without_an_output_there_is_nothing_to_prove() {
    let missing = Err(FibonacciError("Failed to get `out` value".to_string()));
    let mut inputs = HashMap::new();
    assert_eq!(public_input(&inputs), missing);
    inputs.insert("other".to_string(), scalars(&[55]));
    assert_eq!(public_input(&inputs), missing);
    inputs.insert("out".to_string(), vec![]);
    assert_eq!(public_input(&inputs), missing);
    let result = generate_halo2_proof(inputs, |_| panic!("nothing to prove"));
    assert_eq!(result, Err(FibonacciError("Failed to get `out` value".to_string())));
}

#[test]
fn the_first_claimed_value_counts() {
    let mut inputs = HashMap::new();
    inputs.insert("in".to_string(), scalars(&[7]));
    inputs.insert("out".to_string(), scalars(&[55, 56]));
    assert_eq!(public_input(&inputs), Ok(scalars(&[1, 1, 55])));
    let result = generate_halo2_proof(inputs, |circuit| {
        assert_eq!(circuit.public_input, vec![scalars(&[1, 1, 55])]);
        vec![3, 2, 1]
    });
    assert_eq!(result, Ok((vec![3, 2, 1], scalars(&[1, 1, 55]))));
}

#[test]
fn a_proof_is_refused_for_other_public_values() {
    let mut input = HashMap::new();
    input.insert("out".to_string(), scalars(&[55]));
    let (proof, inputs) = generate_halo2_proof(input, prove).unwrap();
    assert_eq!(
        verify_halo2_proof(proof.clone(), scalars(&[1, 1, 56]), verify),
        Err(FibonacciError(
            "Verifying proof error: made for another output".to_string()
        ))
    );
    assert!(verify_halo2_proof(proof.clone(), scalars(&[2, 1, 55]), verify).is_err());
    // A verifier that answers alike each time is reported alike each time.
    assert_eq!(verify_halo2_proof(proof.clone(), inputs.clone(), verify), Ok(true));
    assert_eq!(verify_halo2_proof(proof, inputs, verify), Ok(true));
}

#[test]
fn inputs_with_one_first_value_are_proved_alike() {
    let mut input = HashMap::new();
    input.insert("out".to_string(), scalars(&[55]));
    let mut other = HashMap::new();
    other.insert("in".to_string(), scalars(&[3]));
    other.insert("out".to_string(), scalars(&[55, 1, 2]));
    assert_eq!(generate_halo2_proof(input, prove), generate_halo2_proof(other, prove));
}

#[test]
fn answers_are_reported() {
    assert_eq!(verification_outcome(Ok(())), Ok(true));
    assert_eq!(
        verification_outcome(Err("InvalidSumcheck".to_string())),
        Err(FibonacciError("Verifying proof error: InvalidSumcheck".to_string()))
    );
    let result = verify_halo2_proof(vec![1, 2], scalars(&[1, 1, 56]), |proof, columns| {
        assert_eq!(proof, &vec![1, 2]);
        assert_eq!(columns, &vec![scalars(&[1, 1, 56])]);
        Err("refused".to_string())
    });
    assert_eq!(
        result,
        Err(FibonacciError("Verifying proof error: refused".to_string()))
    );
}
