//! Plain descriptions of a circuit.
//!
//! An [`Arrangement`] holds what a circuit asks of a constraint system: columns, selectors,
//! equality and gates. A [`Layout`] holds what it asks of a layouter: the regions to assign
//! and the cells to tie to public values. Whoever drives a proof system replays both,
//! entry by entry and in order.

use vstd::prelude::*;

verus! {

/// An advice column, by its position among the advice columns.
#[derive(Debug, Clone, Copy, PartialEq, Eq, Hash, Structural)]
pub struct AdviceColumn {
    pub index: usize,
}

/// An instance column, by its position among the instance columns.
#[derive(Debug, Clone, Copy, PartialEq, Eq, Hash, Structural)]
pub struct InstanceColumn {
    pub index: usize,
}

/// A selector, by its position among the selectors.
#[derive(Debug, Clone, Copy, PartialEq, Eq, Hash, Structural)]
pub struct Selector {
    pub index: usize,
}

/// A column of either kind.
#[derive(Debug, Clone, Copy, PartialEq, Eq, Hash, Structural)]
pub enum AnyColumn {
    Advice(AdviceColumn),
    Instance(InstanceColumn),
}

/// A polynomial over the selectors and advice cells of one row.
#[derive(Debug)]
pub enum Expression {
    Selector(Selector),
    Advice(AdviceColumn),
    Negated(Box<Expression>),
    Sum(Box<Expression>, Box<Expression>),
    Product(Box<Expression>, Box<Expression>),
}

/// A gate: polynomials that must vanish on every row.
#[derive(Debug)]
pub struct Gate {
    pub name: &'static str,
    pub polys: Vec<Expression>,
}

/// The contents of a [`Gate`].
#[verifier::ext_equal]
pub struct GateView {
    pub name: Seq<char>,
    pub polys: Seq<Expression>,
}

impl View for Gate {
    type V = GateView;

    open spec fn view(&self) -> GateView {
        GateView { name: self.name@, polys: self.polys@ }
    }
}

/// The columns, selectors, equality-enabled columns and gates that a circuit asks for.
#[derive(Debug)]
pub struct Arrangement {
    pub num_advice_columns: usize,
    pub num_instance_columns: usize,
    pub num_selectors: usize,
    pub equality: Vec<AnyColumn>,
    pub gates: Vec<Gate>,
}

/// The contents of an [`Arrangement`].
#[verifier::ext_equal]
pub struct ArrangementView {
    pub num_advice_columns: nat,
    pub num_instance_columns: nat,
    pub num_selectors: nat,
    pub equality: Seq<AnyColumn>,
    pub gates: Seq<GateView>,
}

impl View for Arrangement {
    type V = ArrangementView;

    open spec fn view(&self) -> ArrangementView {
        ArrangementView {
            num_advice_columns: self.num_advice_columns as nat,
            num_instance_columns: self.num_instance_columns as nat,
            num_selectors: self.num_selectors as nat,
            equality: self.equality@,
            gates: self.gates@.map_values(|gate: Gate| gate@),
        }
    }
}

impl ArrangementView {
    /// An arrangement that asks for nothing.
    pub open spec fn empty() -> Self {
        ArrangementView {
            num_advice_columns: 0,
            num_instance_columns: 0,
            num_selectors: 0,
            equality: Seq::empty(),
            gates: Seq::empty(),
        }
    }
}

impl Arrangement {
    /// An arrangement that asks for nothing.
    pub fn new() -> (r: Self)
        ensures
            r@ == ArrangementView::empty(),
    {
        Arrangement {
            num_advice_columns: 0,
            num_instance_columns: 0,
            num_selectors: 0,
            equality: Vec::new(),
            gates: Vec::new(),
        }
    }

    /// Asks for one more advice column.
    pub fn advice_column(&mut self) -> (column: AdviceColumn)
        requires
            old(self).num_advice_columns < usize::MAX,
        ensures
            column.index == old(self)@.num_advice_columns,
            final(self)@ == (ArrangementView {
                num_advice_columns: old(self)@.num_advice_columns + 1,
                ..old(self)@
            }),
    {
        let index: usize = self.num_advice_columns;
        self.num_advice_columns = index + 1;
        AdviceColumn { index }
    }

    /// Asks for one more instance column.
    pub fn instance_column(&mut self) -> (column: InstanceColumn)
        requires
            old(self).num_instance_columns < usize::MAX,
        ensures
            column.index == old(self)@.num_instance_columns,
            final(self)@ == (ArrangementView {
                num_instance_columns: old(self)@.num_instance_columns + 1,
                ..old(self)@
            }),
    {
        let index: usize = self.num_instance_columns;
        self.num_instance_columns = index + 1;
        InstanceColumn { index }
    }

    /// Asks for one more selector.
    pub fn selector(&mut self) -> (selector: Selector)
        requires
            old(self).num_selectors < usize::MAX,
        ensures
            selector.index == old(self)@.num_selectors,
            final(self)@ == (ArrangementView {
                num_selectors: old(self)@.num_selectors + 1,
                ..old(self)@
            }),
    {
        let index: usize = self.num_selectors;
        self.num_selectors = index + 1;
        Selector { index }
    }

    /// Asks that the cells of `column` may take part in copy constraints.
    pub fn enable_equality(&mut self, column: AnyColumn)
        ensures
            final(self)@ == (ArrangementView {
                equality: old(self)@.equality.push(column),
                ..old(self)@
            }),
    {
        self.equality.push(column);
    }

    /// Asks for a gate.
    pub fn create_gate(&mut self, name: &'static str, polys: Vec<Expression>)
        ensures
            final(self)@ == (ArrangementView {
                gates: old(self)@.gates.push(GateView { name: name@, polys: polys@ }),
                ..old(self)@
            }),
    {
        let gate = Gate { name, polys };
        let ghost view = |gate: Gate| gate@;
        assert(self.gates@.push(gate).map_values(view) == self.gates@.map_values(view).push(gate@));
        self.gates.push(gate);
    }
}

/// An advice cell: a column and a row offset inside the region that stands at position
/// `region` of the layout.
#[derive(Debug, Clone, Copy, PartialEq, Eq, Hash, Structural)]
pub struct Cell {
    pub region: usize,
    pub column: AdviceColumn,
    pub offset: usize,
}

/// A cell together with the step, by its position in the region, that assigns it. It carries
/// the value that this step assigns, whatever else is assigned to the same cell.
#[derive(Debug, Clone, Copy, PartialEq, Eq, Hash, Structural)]
pub struct AssignedCell {
    pub cell: Cell,
    pub step: usize,
}

/// One thing to do inside a region.
#[derive(Debug, Clone, Copy)]
pub enum RegionStep {
    /// Enable `selector` at row `offset`.
    EnableSelector { selector: Selector, offset: usize },
    /// Assign the public value at `row` of `instance` to the cell of `advice` at `offset`,
    /// and constrain the two to be equal.
    AdviceFromInstance {
        annotation: &'static str,
        instance: InstanceColumn,
        row: usize,
        advice: AdviceColumn,
        offset: usize,
    },
    /// Assign the value that `source` carries to the cell of `advice` at `offset`, and constrain the
    /// cells to be equal.
    CopyAdvice {
        annotation: &'static str,
        source: AssignedCell,
        advice: AdviceColumn,
        offset: usize,
    },
    /// Assign the sum of the values that `left` and `right` carry to the cell of `advice` at
    /// `offset`. The assignment alone constrains nothing.
    AdviceSum {
        annotation: &'static str,
        left: AssignedCell,
        right: AssignedCell,
        advice: AdviceColumn,
        offset: usize,
    },
}

/// One request to a layouter.
#[derive(Debug)]
pub enum Action {
    /// Assign a region by the given steps.
    AssignRegion { name: &'static str, steps: Vec<RegionStep> },
    /// Constrain an assigned cell to equal the public value at `row` of `instance`.
    ConstrainInstance { cell: Cell, instance: InstanceColumn, row: usize },
}

/// The contents of an [`Action`].
#[verifier::ext_equal]
pub enum ActionView {
    AssignRegion { name: Seq<char>, steps: Seq<RegionStep> },
    ConstrainInstance { cell: Cell, instance: InstanceColumn, row: usize },
}

impl View for Action {
    type V = ActionView;

    open spec fn view(&self) -> ActionView {
        match *self {
            Action::AssignRegion { name, steps } => ActionView::AssignRegion {
                name: name@,
                steps: steps@,
            },
            Action::ConstrainInstance { cell, instance, row } => ActionView::ConstrainInstance {
                cell,
                instance,
                row,
            },
        }
    }
}

/// The names of nested namespaces, outermost first.
pub open spec fn names(namespaces: Seq<&'static str>) -> Seq<Seq<char>> {
    namespaces.map_values(|name: &'static str| name@)
}

/// A request together with the nested namespaces in which it is made, outermost first.
#[derive(Debug)]
pub struct Placement {
    pub namespaces: Vec<&'static str>,
    pub action: Action,
}

/// The contents of a [`Placement`].
#[verifier::ext_equal]
pub struct PlacementView {
    pub namespaces: Seq<Seq<char>>,
    pub action: ActionView,
}

impl View for Placement {
    type V = PlacementView;

    open spec fn view(&self) -> PlacementView {
        PlacementView { namespaces: names(self.namespaces@), action: self.action@ }
    }
}

/// The requests that a circuit makes of a layouter, in order.
#[derive(Debug)]
pub struct Layout {
    /// The nested namespaces that the next request is made in, outermost first.
    pub namespaces: Vec<&'static str>,
    pub placements: Vec<Placement>,
}

/// The contents of a [`Layout`].
#[verifier::ext_equal]
pub struct LayoutView {
    pub namespaces: Seq<Seq<char>>,
    pub placements: Seq<PlacementView>,
}

impl View for Layout {
    type V = LayoutView;

    open spec fn view(&self) -> LayoutView {
        LayoutView {
            namespaces: names(self.namespaces@),
            placements: self.placements@.map_values(|placement: Placement| placement@),
        }
    }
}

impl LayoutView {
    /// A layout without requests, outside any namespace.
    pub open spec fn empty() -> Self {
        LayoutView { namespaces: Seq::empty(), placements: Seq::empty() }
    }

    /// This layout, with `action` requested in its present namespaces.
    pub open spec fn place(self, action: ActionView) -> Self {
        LayoutView {
            placements: self.placements.push(
                PlacementView { namespaces: self.namespaces, action },
            ),
            ..self
        }
    }
}

impl Layout {
    /// A layout without requests, outside any namespace.
    pub fn new() -> (r: Self)
        ensures
            r@ == LayoutView::empty(),
    {
        Layout { namespaces: Vec::new(), placements: Vec::new() }
    }

    /// Makes the requests that follow in the namespace `name`, inside the present ones.
    pub fn enter_namespace(&mut self, name: &'static str)
        ensures
            final(self)@ == (LayoutView {
                namespaces: old(self)@.namespaces.push(name@),
                ..old(self)@
            }),
    {
        self.namespaces.push(name);
        assert(names(self.namespaces@) == names(old(self).namespaces@).push(name@));
    }

    /// Leaves the innermost namespace.
    pub fn leave_namespace(&mut self)
        requires
            old(self)@.namespaces.len() > 0,
        ensures
            final(self)@ == (LayoutView {
                namespaces: old(self)@.namespaces.drop_last(),
                ..old(self)@
            }),
    {
        self.namespaces.pop();
        assert(names(self.namespaces@) == names(old(self).namespaces@).drop_last());
    }

    /// The position of the next request. The cells of a region name it by its position.
    pub fn next_region(&self) -> (region: usize)
        ensures
            region == self@.placements.len(),
    {
        self.placements.len()
    }

    /// Requests a region.
    pub fn assign_region(&mut self, name: &'static str, steps: Vec<RegionStep>)
        ensures
            final(self)@ == old(self)@.place(
                ActionView::AssignRegion { name: name@, steps: steps@ },
            ),
    {
        self.place(Action::AssignRegion { name, steps });
    }

    /// Requests that `cell` equal the public value at `row` of `instance`.
    pub fn constrain_instance(&mut self, cell: Cell, instance: InstanceColumn, row: usize)
        ensures
            final(self)@ == old(self)@.place(
                ActionView::ConstrainInstance { cell, instance, row },
            ),
    {
        self.place(Action::ConstrainInstance { cell, instance, row });
    }

    fn place(&mut self, action: Action)
        ensures
            final(self)@ == old(self)@.place(action@),
    {
        let namespaces = self.namespaces.clone();
        assert(namespaces@ == self.namespaces@);
        let placement = Placement { namespaces, action };
        let ghost view = |placement: Placement| placement@;
        assert(self.placements@.push(placement).map_values(view) == self.placements@.map_values(
            view,
        ).push(placement@));
        self.placements.push(placement);
    }
}

} // verus!
