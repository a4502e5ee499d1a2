use fibonacci_circuit::chip::{FibonacciChip, FibonacciConfig};
use fibonacci_circuit::circuit::FibonacciCircuit;
use fibonacci_circuit::field::Scalar;
use fibonacci_circuit::plan::{
    Action, AdviceColumn, AnyColumn, Arrangement, AssignedCell, Cell, Expression, InstanceColumn,
    Layout, RegionStep, Selector,
};
use fibonacci_circuit::witness::Witness;

fn own_config() -> FibonacciConfig {
    FibonacciCircuit::<Scalar>::configure(&mut Arrangement::new())
}

fn cell(region: usize, column: AdviceColumn, step: usize) -> AssignedCell {
    AssignedCell {
        cell: Cell {
            region,
            column,
            offset: 0,
        },
        step,
    }
}

fn steps_at(layout: &Layout, position: usize) -> &Vec<RegionStep> {
    match &layout.placements[position].action {
        Action::AssignRegion { steps, .. } => steps,
        Action::ConstrainInstance { .. } => panic!("not a region"),
    }
}

fn target(region: usize, index: usize, step: &RegionStep) -> Option<AssignedCell> {
    match step {
        RegionStep::EnableSelector { .. } => None,
        RegionStep::AdviceFromInstance { advice, offset, .. }
        | RegionStep::CopyAdvice { advice, offset, .. }
        | RegionStep::AdviceSum { advice, offset, .. } => Some(AssignedCell {
            cell: Cell {
                region,
                column: *advice,
                offset: *offset,
            },
            step: index,
        }),
    }
}

#[test]
fn configure_takes_the_next_columns() {
    let mut meta = Arrangement::new();
    let first = FibonacciChip::<Scalar>::configure(&mut meta);
    let second = FibonacciChip::<Scalar>::configure(&mut meta);
    assert_eq!(first, own_config());
    assert_eq!(first.col_a, AdviceColumn { index: 0 });
    assert_eq!(first.col_b, AdviceColumn { index: 1 });
    assert_eq!(first.col_c, AdviceColumn { index: 2 });
    assert_eq!(first.selector, Selector { index: 0 });
    assert_eq!(first.instance, InstanceColumn { index: 0 });
    assert_eq!(second.col_a, AdviceColumn { index: 3 });
    assert_eq!(second.col_c, AdviceColumn { index: 5 });
    assert_eq!(second.selector, Selector { index: 1 });
    assert_eq!(second.instance, InstanceColumn { index: 1 });
    assert_eq!(meta.num_advice_columns, 6);
    assert_eq!(meta.num_instance_columns, 2);
    assert_eq!(meta.num_selectors, 2);
    assert_eq!(
        meta.equality[..4],
        [
            AnyColumn::Advice(first.col_a),
            AnyColumn::Advice(first.col_b),
            AnyColumn::Advice(first.col_c),
            AnyColumn::Instance(first.instance),
        ]
    );
    assert_eq!(meta.equality.len(), 8);
}

#[test]
fn configure_adds_the_addition_gate() {
    let mut meta = Arrangement::new();
    let config = FibonacciChip::<Scalar>::configure(&mut meta);
    assert_eq!(meta.gates.len(), 1);
    assert_eq!(meta.gates[0].name, "add");
    assert_eq!(meta.gates[0].polys.len(), 1);
    let (s, sum) = match &meta.gates[0].polys[0] {
        Expression::Product(s, sum) => (s, sum),
        _ => panic!("not a product"),
    };
    assert!(matches!(**s, Expression::Selector(selector) if selector == config.selector));
    let (ab, minus_c) = match &**sum {
        Expression::Sum(ab, minus_c) => (ab, minus_c),
        _ => panic!("not a sum"),
    };
    match &**ab {
        Expression::Sum(a, b) => {
            assert!(matches!(**a, Expression::Advice(column) if column == config.col_a));
            assert!(matches!(**b, Expression::Advice(column) if column == config.col_b));
        }
        _ => panic!("not a sum"),
    }
    match &**minus_c {
        Expression::Negated(c) => {
            assert!(matches!(**c, Expression::Advice(column) if column == config.col_c));
        }
        _ => panic!("not negated"),
    }
}

#[test]
fn first_row_reads_the_public_values() {
    let config = own_config();
    let chip = FibonacciChip::<Scalar>::construct(config);
    let mut layout = Layout::new();
    layout.enter_namespace("start");
    let (a, b, c) = chip.clone().assign_first_row(&mut layout);
    layout.leave_namespace();
    assert!(layout.namespaces.is_empty());
    assert_eq!(a, cell(0, config.col_a, 1));
    assert_eq!(b, cell(0, config.col_b, 2));
    assert_eq!(c, cell(0, config.col_c, 3));
    assert_eq!(layout.placements[0].namespaces, ["start"]);
    assert!(matches!(
        layout.placements[0].action,
        Action::AssignRegion {
            name: "first row",
            ..
        }
    ));
    let steps = steps_at(&layout, 0);
    assert_eq!(steps.len(), 4);
    assert!(matches!(
        steps[0],
        RegionStep::EnableSelector { selector, offset: 0 } if selector == config.selector
    ));
    assert!(matches!(
        steps[1],
        RegionStep::AdviceFromInstance { annotation: "f(0)", instance, row: 0, advice, offset: 0 }
            if instance == config.instance && advice == config.col_a
    ));
    assert!(matches!(
        steps[2],
        RegionStep::AdviceFromInstance { annotation: "f(1)", instance, row: 1, advice, offset: 0 }
            if instance == config.instance && advice == config.col_b
    ));
    assert!(matches!(
        steps[3],
        RegionStep::AdviceSum { annotation: "a + b", left, right, advice, offset: 0 }
            if left == a && right == b && advice == config.col_c
    ));
}

#[test]
fn next_row_copies_and_adds() {
    let config = own_config();
    let chip = FibonacciChip::<Scalar>::construct(config);
    let mut layout = Layout::new();
    let (_, b, c) = chip.assign_first_row(&mut layout);
    let next = chip.assign_row(&mut layout, &b, &c);
    assert_eq!(next, cell(1, config.col_c, 3));
    let steps = steps_at(&layout, 1);
    assert_eq!(steps.len(), 4);
    assert!(matches!(
        steps[0],
        RegionStep::EnableSelector { selector, offset: 0 } if selector == config.selector
    ));
    assert!(matches!(
        steps[1],
        RegionStep::CopyAdvice { annotation: "a", source, advice, offset: 0 }
            if source == b && advice == config.col_a
    ));
    assert!(matches!(
        steps[2],
        RegionStep::CopyAdvice { annotation: "b", source, advice, offset: 0 }
            if source == c && advice == config.col_b
    ));
    assert!(matches!(
        steps[3],
        RegionStep::AdviceSum { annotation: "c", left, right, advice, offset: 0 }
            if left == b && right == c && advice == config.col_c
    ));
    chip.expose_public(&mut layout, &next, 7);
    assert!(matches!(
        layout.placements[2].action,
        Action::ConstrainInstance { cell, instance, row: 7 }
            if cell == next.cell && instance == config.instance
    ));
}

#[test]
fn synthesize_lays_out_eight_rows_and_the_output() {
    let config = own_config();
    let circuit = FibonacciCircuit::<Scalar>::default();
    let mut layout = Layout::new();
    circuit.synthesize(config, &mut layout);
    assert_eq!(layout.placements.len(), 9);
    assert_eq!(layout.placements[0].namespaces, ["first row"]);
    for row in 1..8 {
        assert_eq!(layout.placements[row].namespaces, ["next row"]);
        let last = cell(row - 1, config.col_c, 3);
        let last_but_one = if row == 1 {
            cell(0, config.col_b, 2)
        } else {
            cell(row - 2, config.col_c, 3)
        };
        let steps = steps_at(&layout, row);
        assert!(matches!(
            steps[1],
            RegionStep::CopyAdvice { source, .. } if source == last_but_one
        ));
        assert!(matches!(steps[2], RegionStep::CopyAdvice { source, .. } if source == last));
    }
    assert_eq!(layout.placements[8].namespaces, ["out"]);
    assert!(matches!(
        layout.placements[8].action,
        Action::ConstrainInstance { cell: output, instance, row: 2 }
            if output == cell(7, config.col_c, 3).cell && instance == config.instance
    ));
}

#[test]
fn layouts_do_not_depend_on_public_values() {
    let config = own_config();
    let circuit = FibonacciCircuit {
        public_input: vec![vec![Scalar::from_u64(1), Scalar::from_u64(1), Scalar::from_u64(55)]],
    };
    let mut with = Layout::new();
    circuit.synthesize(config, &mut with);
    let mut without = Layout::new();
    circuit.without_witnesses().synthesize(config, &mut without);
    assert_eq!(format!("{:?}", with), format!("{:?}", without));
}

#[test]
fn every_copied_column_allows_equality() {
    let mut meta = Arrangement::new();
    let config = FibonacciCircuit::<Scalar>::configure(&mut meta);
    let mut layout = Layout::new();
    FibonacciCircuit::<Scalar>::default().synthesize(config, &mut layout);
    let enabled = |column: AnyColumn| meta.equality.contains(&column);
    for placement in &layout.placements {
        match &placement.action {
            Action::AssignRegion { steps, .. } => {
                for step in steps {
                    match step {
                        RegionStep::AdviceFromInstance {
                            instance, advice, ..
                        } => {
                            assert!(enabled(AnyColumn::Instance(*instance)));
                            assert!(enabled(AnyColumn::Advice(*advice)));
                        }
                        RegionStep::CopyAdvice { source, advice, .. } => {
                            assert!(enabled(AnyColumn::Advice(source.cell.column)));
                            assert!(enabled(AnyColumn::Advice(*advice)));
                        }
                        _ => {}
                    }
                }
            }
            Action::ConstrainInstance { cell, instance, .. } => {
                assert!(enabled(AnyColumn::Instance(*instance)));
                assert!(enabled(AnyColumn::Advice(cell.column)));
            }
        }
    }
}

#[test]
fn no_column_allows_equality_in_vain() {
    let mut meta = Arrangement::new();
    let config = FibonacciCircuit::<Scalar>::configure(&mut meta);
    let mut layout = Layout::new();
    FibonacciCircuit::<Scalar>::default().synthesize(config, &mut layout);
    let mut copied: Vec<AnyColumn> = Vec::new();
    for placement in &layout.placements {
        match &placement.action {
            Action::AssignRegion { steps, .. } => {
                for step in steps {
                    match step {
                        RegionStep::AdviceFromInstance {
                            instance, advice, ..
                        } => {
                            copied.push(AnyColumn::Instance(*instance));
                            copied.push(AnyColumn::Advice(*advice));
                        }
                        RegionStep::CopyAdvice { source, advice, .. } => {
                            copied.push(AnyColumn::Advice(source.cell.column));
                            copied.push(AnyColumn::Advice(*advice));
                        }
                        _ => {}
                    }
                }
            }
            Action::ConstrainInstance { cell, .. } => copied.push(AnyColumn::Advice(cell.column)),
        }
    }
    assert!(meta.equality.iter().all(|column| copied.contains(column)));
}

#[test]
fn regions_are_single_rows() {
    let config = own_config();
    let mut layout = Layout::new();
    FibonacciCircuit::<Scalar>::default().synthesize(config, &mut layout);
    for position in 0..8 {
        let steps = steps_at(&layout, position);
        assert!(matches!(
            steps[0],
            RegionStep::EnableSelector { selector, offset: 0 } if selector == config.selector
        ));
        assert!(steps[1..]
            .iter()
            .all(|step| target(position, 0, step).unwrap().cell.offset == 0));
    }
}

#[test]
fn cells_are_assigned_once_and_before_use() {
    let config = own_config();
    let mut layout = Layout::new();
    FibonacciCircuit::<Scalar>::default().synthesize(config, &mut layout);
    let mut assigned: Vec<AssignedCell> = Vec::new();
    for (position, placement) in layout.placements.iter().enumerate() {
        match &placement.action {
            Action::AssignRegion { steps, .. } => {
                for (index, step) in steps.iter().enumerate() {
                    match step {
                        RegionStep::CopyAdvice { source, .. } => {
                            assert!(assigned.contains(source))
                        }
                        RegionStep::AdviceSum { left, right, .. } => {
                            assert!(assigned.contains(left) && assigned.contains(right))
                        }
                        _ => {}
                    }
                    if let Some(cell) = target(position, index, step) {
                        assert!(assigned.iter().all(|other| other.cell != cell.cell));
                        assigned.push(cell);
                    }
                }
            }
            Action::ConstrainInstance { cell, .. } => {
                assert!(assigned.iter().any(|assigned| assigned.cell == *cell))
            }
        }
    }
    assert_eq!(assigned.len(), 24);
}

#[test]
fn replaying_fills_the_table_with_terms() {
    let config = own_config();
    let mut layout = Layout::new();
    FibonacciCircuit::<Scalar>::default().synthesize(config, &mut layout);
    let public = [1u64, 1, 55];
    let mut witness = Witness::new();
    for position in 0..8 {
        for (index, step) in steps_at(&layout, position).iter().enumerate() {
            let read = match step {
                RegionStep::AdviceFromInstance { row, .. } => {
                    Some(Scalar::from_u64(public[*row]))
                }
                _ => None,
            };
            let value = witness.assign(position, index, step, read);
            if let Some(cell) = target(position, index, step) {
                assert_eq!(witness.value_of(&cell), value);
            }
        }
    }
    let terms = [1u64, 1, 2, 3, 5, 8, 13, 21, 34, 55];
    for row in 0..8 {
        let value = |column, step| witness.value_of(&cell(row, column, step)).unwrap();
        assert_eq!(value(config.col_a, 1), Scalar::from_u64(terms[row]));
        assert_eq!(value(config.col_b, 2), Scalar::from_u64(terms[row + 1]));
        assert_eq!(value(config.col_c, 3), Scalar::from_u64(terms[row + 2]));
    }
}

#[test]
fn witness_of_unknown_values_is_unknown() {
    let config = own_config();
    let chip = FibonacciChip::<Scalar>::construct(config);
    let mut layout = Layout::new();
    let (a, b, c) = chip.assign_first_row(&mut layout);
    let mut witness = Witness::new();
    assert_eq!(witness.value_of(&a), None);
    let steps = steps_at(&layout, 0);
    assert_eq!(witness.assign(0, 0, &steps[0], Some(Scalar::from_u64(9))), None);
    assert_eq!(
        witness.assign(0, 1, &steps[1], Some(Scalar::from_u64(4))),
        Some(Scalar::from_u64(4))
    );
    assert_eq!(witness.assign(0, 2, &steps[2], None), None);
    assert_eq!(witness.assign(0, 3, &steps[3], None), None);
    assert_eq!(witness.value_of(&a), Some(Scalar::from_u64(4)));
    assert_eq!(witness.value_of(&b), None);
    // A later assignment of the same cell counts.
    witness.assign(0, 2, &steps[2], Some(Scalar::from_u64(5)));
    assert_eq!(witness.value_of(&b), Some(Scalar::from_u64(5)));
    assert_eq!(
        witness.assign(0, 3, &steps[3], None),
        Some(Scalar::from_u64(9))
    );
    assert_eq!(witness.value_of(&c), Some(Scalar::from_u64(9)));
}

/// Takes the steps of all regions, with the given public values. Returns the values that
/// each region assigns.
fn replay(layout: &Layout, public: &[u64]) -> Vec<Vec<Option<Scalar>>> {
    let mut witness = Witness::new();
    let mut values = Vec::new();
    for position in 0..layout.placements.len() {
        let mut row = Vec::new();
        for (index, step) in steps_at(layout, position).iter().enumerate() {
            let read = match step {
                RegionStep::AdviceFromInstance { row, .. } => {
                    Some(Scalar::from_u64(public[*row]))
                }
                _ => None,
            };
            row.push(witness.assign(position, index, step, read));
        }
        values.push(row);
    }
    values
}

#[test]
fn assigned_cells_carry_their_own_values() {
    // Both starting terms are assigned to one and the same cell.
    let config = FibonacciConfig {
        col_b: own_config().col_a,
        ..own_config()
    };
    let chip = FibonacciChip::<Scalar>::construct(config);
    let mut layout = Layout::new();
    let (a, b, _) = chip.assign_first_row(&mut layout);
    assert_eq!(a.cell, b.cell);
    assert_ne!(a, b);
    let values = replay(&layout, &[1, 5]);
    assert_eq!(
        values[0],
        [
            None,
            Some(Scalar::from_u64(1)),
            Some(Scalar::from_u64(5)),
            Some(Scalar::from_u64(6)),
        ]
    );
}

#[test]
fn sum_of_a_row_is_symmetric() {
    let chip = FibonacciChip::<Scalar>::construct(own_config());
    let mut layout = Layout::new();
    let (_, b, c) = chip.assign_first_row(&mut layout);
    chip.assign_row(&mut layout, &b, &c);
    chip.assign_row(&mut layout, &c, &b);
    let values = replay(&layout, &[3, 4]);
    let known = |x: u64| Some(Scalar::from_u64(x));
    assert_eq!(values[1], [None, known(4), known(7), known(11)]);
    assert_eq!(values[2], [None, known(7), known(4), known(11)]);
}

#[test]
fn synthesize_nests_its_namespaces() {
    let mut layout = Layout::new();
    layout.enter_namespace("outer");
    FibonacciCircuit::<Scalar>::default().synthesize(own_config(), &mut layout);
    assert_eq!(layout.namespaces, ["outer"]);
    assert_eq!(layout.placements[0].namespaces, ["outer", "first row"]);
    assert_eq!(layout.placements[1].namespaces, ["outer", "next row"]);
    assert_eq!(layout.placements[7].namespaces, ["outer", "next row"]);
    assert_eq!(layout.placements[8].namespaces, ["outer", "out"]);
}

#[test]
fn configurations_are_apart() {
    let mut meta = Arrangement::new();
    let one = FibonacciChip::<Scalar>::configure(&mut meta);
    let two = FibonacciCircuit::<Scalar>::configure(&mut meta);
    let columns = [one.col_a, one.col_b, one.col_c, two.col_a, two.col_b, two.col_c];
    for (i, column) in columns.iter().enumerate() {
        assert!(!columns[..i].contains(column));
    }
    assert_ne!(one.instance, two.instance);
    assert_ne!(one.selector, two.selector);
    assert_eq!(meta.gates.len(), 2);
}

#[test]
fn circuit_is_configured_as_its_chip() {
    let mut by_chip = Arrangement::new();
    let mut by_circuit = Arrangement::new();
    assert_eq!(
        FibonacciChip::<Scalar>::configure(&mut by_chip),
        FibonacciCircuit::<Scalar>::configure(&mut by_circuit)
    );
    assert_eq!(format!("{:?}", by_chip), format!("{:?}", by_circuit));
}

#[test]
fn instances_are_the_public_input() {
    let columns = vec![
        vec![Scalar::from_u64(1), Scalar::from_u64(2)],
        vec![],
        vec![Scalar::from_u64(3)],
    ];
    let circuit = FibonacciCircuit {
        public_input: columns.clone(),
    };
    assert_eq!(circuit.instances(), columns);
    assert!(circuit.without_witnesses().public_input.is_empty());
    assert!(FibonacciCircuit::<Scalar>::default().instances().is_empty());
}
