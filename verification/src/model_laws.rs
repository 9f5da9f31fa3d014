//! What the mathematical models of circuits say of the data that they stand for.
use crate::algebra::values;
use crate::circuit::{
    all_placed, next_region, Cell, CellView, Event, EventView, Layouter, Region, RegionView,
};
use crate::field::FieldExt;
use crate::plonk::{
    advice_cells, indices, poly_pairs, polys, queries, with_equality, Advice, Column,
    ConstraintSystem, Expression, Fixed, Gate, GateView, Grid, Instance, Lookup, LookupView, Poly,
    Query, Rotation, Selector, VirtualCells,
};
use crate::tx_circuit::instance_cells;
use vstd::prelude::*;

verus! {

/// Expressions are evaluated in the field: cells at the row that the rotation
/// leads to, selectors at the row itself.
pub proof fn law_eval(
    c: int,
    at: int,
    simple: bool,
    a: Poly,
    b: Poly,
    grid: Grid,
    row: int,
    p: int,
)
    requires
        0 < p,
    ensures
        Poly::Constant(c).eval(grid, row, p) == c % p,
        Poly::Selector(c, simple).eval(grid, row, p) == (grid.selector)(c, row) % p,
        Poly::Fixed(c, at).eval(grid, row, p) == (grid.fixed)(c, row + at) % p,
        Poly::Advice(c, at).eval(grid, row, p) == (grid.advice)(c, row + at) % p,
        Poly::Instance(c, at).eval(grid, row, p) == (grid.instance)(c, row + at) % p,
        Poly::Negated(Box::new(a)).eval(grid, row, p) == (-a.eval(grid, row, p)) % p,
        Poly::Sum(Box::new(a), Box::new(b)).eval(grid, row, p) == (a.eval(grid, row, p) + b.eval(
            grid,
            row,
            p,
        )) % p,
        Poly::Product(Box::new(a), Box::new(b)).eval(grid, row, p) == (a.eval(grid, row, p)
            * b.eval(grid, row, p)) % p,
{
}

/// A simple selector occurs in a polynomial if it is one, or occurs in a part.
pub proof fn law_simple_selectors(c: int, at: int, simple: bool, a: Poly, b: Poly)
    ensures
        !Poly::Constant(c).contains_simple_selector(),
        Poly::Selector(c, simple).contains_simple_selector() == simple,
        !Poly::Fixed(c, at).contains_simple_selector(),
        !Poly::Advice(c, at).contains_simple_selector(),
        !Poly::Instance(c, at).contains_simple_selector(),
        Poly::Negated(Box::new(a)).contains_simple_selector() == a.contains_simple_selector(),
        Poly::Sum(Box::new(a), Box::new(b)).contains_simple_selector() == (
        a.contains_simple_selector() || b.contains_simple_selector()),
        Poly::Product(Box::new(a), Box::new(b)).contains_simple_selector() == (
        a.contains_simple_selector() || b.contains_simple_selector()),
{
}

/// An expression has the value of the cell that it names, or that its parts give.
pub proof fn law_expression<F: FieldExt>(
    c: F,
    s: Selector,
    fixed: Column<Fixed>,
    advice: Column<Advice>,
    instance: Column<Instance>,
    at: Rotation,
    a: Expression<F>,
    b: Expression<F>,
    grid: Grid,
    row: int,
    p: int,
)
    requires
        0 < p,
    ensures
        Expression::Constant(c)@.eval(grid, row, p) == c.value() % p,
        Expression::<F>::Selector(s)@.eval(grid, row, p) == (grid.selector)(s.index as int, row)
            % p,
        Expression::<F>::Selector(s)@.contains_simple_selector() == s.simple,
        Expression::<F>::Fixed(fixed, at)@.eval(grid, row, p) == (grid.fixed)(
            fixed.index as int,
            row + at.0,
        ) % p,
        Expression::<F>::Advice(advice, at)@.eval(grid, row, p) == (grid.advice)(
            advice.index as int,
            row + at.0,
        ) % p,
        Expression::<F>::Instance(instance, at)@.eval(grid, row, p) == (grid.instance)(
            instance.index as int,
            row + at.0,
        ) % p,
        Expression::Negated(Box::new(a))@.eval(grid, row, p) == (-a@.eval(grid, row, p)) % p,
        Expression::Sum(Box::new(a), Box::new(b))@.eval(grid, row, p) == (a@.eval(grid, row, p)
            + b@.eval(grid, row, p)) % p,
        Expression::Product(Box::new(a), Box::new(b))@.eval(grid, row, p) == (a@.eval(grid, row, p)
            * b@.eval(grid, row, p)) % p,
{
    law_eval(0, 0, false, a@, b@, grid, row, p);
    assert(Expression::Negated(Box::new(a))@ == Poly::Negated(Box::new(a@)));
    assert(Expression::Sum(Box::new(a), Box::new(b))@ == Poly::Sum(Box::new(a@), Box::new(b@)));
    assert(Expression::Product(Box::new(a), Box::new(b))@ == Poly::Product(
        Box::new(a@),
        Box::new(b@),
    ));
}

/// The cells of columns at a rotation are those of each of the columns, in order,
/// that many rows away.
pub proof fn law_cells(
    advice: Seq<Column<Advice>>,
    instance: Seq<Column<Instance>>,
    rotation: int,
    grid: Grid,
    row: int,
    p: int,
)
    requires
        0 < p,
    ensures
        advice_cells(advice, rotation).len() == advice.len(),
        forall|i: int|
            0 <= i < advice.len() ==> {
                &&& #[trigger] advice_cells(advice, rotation)[i] == Poly::Advice(
                    advice[i].index as int,
                    rotation,
                )
                &&& advice_cells(advice, rotation)[i].eval(grid, row, p) == (grid.advice)(
                    advice[i].index as int,
                    row + rotation,
                ) % p
            },
        instance_cells(instance).len() == instance.len(),
        forall|i: int|
            0 <= i < instance.len() ==> {
                &&& #[trigger] instance_cells(instance)[i] == Poly::Instance(
                    instance[i].index as int,
                    0,
                )
                &&& instance_cells(instance)[i].eval(grid, row, p) == (grid.instance)(
                    instance[i].index as int,
                    row,
                ) % p
            },
{
    assert forall|i: int| 0 <= i < advice.len() implies {
        &&& #[trigger] advice_cells(advice, rotation)[i] == Poly::Advice(
            advice[i].index as int,
            rotation,
        )
        &&& advice_cells(advice, rotation)[i].eval(grid, row, p) == (grid.advice)(
            advice[i].index as int,
            row + rotation,
        ) % p
    } by {}
    assert forall|i: int| 0 <= i < instance.len() implies {
        &&& #[trigger] instance_cells(instance)[i] == Poly::Instance(instance[i].index as int, 0)
        &&& instance_cells(instance)[i].eval(grid, row, p) == (grid.instance)(
            instance[i].index as int,
            row,
        ) % p
    } by {
        assert(row + 0 == row);
    }
}

/// What is said of sequences is said of each of their elements, in order.
pub proof fn law_sequences<F: FieldExt, C>(
    columns: Seq<Column<C>>,
    expressions: Seq<Expression<F>>,
    pairs: Seq<(Expression<F>, Expression<F>)>,
    queried: Seq<Query>,
    written: Seq<Poly>,
    grid: Grid,
    row: int,
    p: int,
)
    ensures
        indices(columns).len() == columns.len(),
        forall|i: int|
            0 <= i < columns.len() ==> #[trigger] indices(columns)[i] == columns[i].index,
        polys(expressions).len() == expressions.len(),
        forall|i: int|
            0 <= i < expressions.len() ==> #[trigger] polys(expressions)[i] == expressions[i]@,
        poly_pairs(pairs).len() == pairs.len(),
        forall|i: int|
            0 <= i < pairs.len() ==> #[trigger] poly_pairs(pairs)[i] == (pairs[i].0@, pairs[i].1@),
        queries(queried).len() == queried.len(),
        forall|i: int|
            0 <= i < queried.len() ==> #[trigger] queries(queried)[i] == (match queried[i] {
                Query::Selector(s) => Poly::Selector(s.index as int, s.simple),
                Query::Fixed(c, at) => Poly::Fixed(c.index as int, at.0 as int),
                Query::Advice(c, at) => Poly::Advice(c.index as int, at.0 as int),
                Query::Instance(c, at) => Poly::Instance(c.index as int, at.0 as int),
            }),
        values(written, grid, row, p).len() == written.len(),
        forall|i: int|
            0 <= i < written.len() ==> #[trigger] values(written, grid, row, p)[i]
                == written[i].eval(grid, row, p),
{
}

/// A gate holds at a row if each of its polynomials is zero there. A lookup holds
/// at a row if its inputs there are the values of its table in one of the rows.
pub proof fn law_holds(gate: GateView, lookup: LookupView, grid: Grid, row: int, rows: int, p: int)
    ensures
        gate.holds(grid, row, p) <==> forall|i: int|
            0 <= i < gate.polys.len() ==> (#[trigger] gate.polys[i]).eval(grid, row, p) == 0,
        lookup.holds(grid, row, rows, p) <==> exists|t: int|
            0 <= t < rows && #[trigger] lookup.matches_at(grid, row, t, p),
        forall|t: int| #[trigger]
            lookup.matches_at(grid, row, t, p) <==> forall|i: int|
                0 <= i < lookup.table_map.len() ==> (#[trigger] lookup.table_map[i]).0.eval(
                    grid,
                    row,
                    p,
                ) == lookup.table_map[i].1.eval(grid, t, p),
{
}

/// The model of a constraint system says all of what it holds.
pub proof fn law_constraint_system<F: FieldExt>(
    meta: ConstraintSystem<F>,
    cells: VirtualCells,
    gate: Gate<F>,
    lookup: Lookup<F>,
)
    ensures
        meta@.num_advice_columns == meta.num_advice_columns,
        meta@.num_selectors == meta.num_selectors,
        meta@.equality == indices(meta.equality@),
        meta@.gates.len() == meta.gates.len(),
        forall|i: int|
            0 <= i < meta.gates.len() ==> #[trigger] meta@.gates[i] == meta.gates@[i]@,
        meta@.lookups.len() == meta.lookups.len(),
        forall|i: int|
            0 <= i < meta.lookups.len() ==> #[trigger] meta@.lookups[i] == meta.lookups@[i]@,
        cells@ == queries(cells.queried@),
        gate@.name == gate.name@,
        gate@.queried == queries(gate.queried@),
        gate@.polys == polys(gate.polys@),
        lookup.name matches Some(name) ==> lookup@.name == Some(name@),
        lookup.name is None ==> lookup@.name is None,
        lookup@.queried == queries(lookup.queried@),
        lookup@.table_map == poly_pairs(lookup.table_map@),
{
}

/// The columns that copy constraints are enabled for, column by column: one that is
/// not listed yet goes to the end of the list.
pub proof fn law_equality_step(equality: Seq<int>, columns: Seq<int>, column: int)
    ensures
        with_equality(equality, Seq::empty()) == equality,
        with_equality(equality, columns).contains(column) ==> with_equality(
            equality,
            columns.push(column),
        ) == with_equality(equality, columns),
        !with_equality(equality, columns).contains(column) ==> with_equality(
            equality,
            columns.push(column),
        ) == with_equality(equality, columns).push(column),
{
    assert(columns.push(column).drop_last() =~= columns);
}

/// The model of the assignment says all of what is recorded.
pub proof fn law_assignment_model<F: FieldExt>(
    selector: Selector,
    column: Column<Advice>,
    offset: usize,
    value: F,
    left: Cell,
    right: Cell,
    region: Region<F>,
    layouter: Layouter<F>,
)
    ensures
        left@ == (CellView {
            region_index: left.region_index as int,
            row_offset: left.row_offset as int,
            column: left.column.index as int,
        }),
        (Event::<F>::EnableSelector { selector, offset })@ == (EventView::EnableSelector {
            selector: selector.index as int,
            simple: selector.simple,
            offset: offset as int,
        }),
        (Event::AssignAdvice { column, offset, value })@ == (EventView::AssignAdvice {
            column: column.index as int,
            offset: offset as int,
            value: value.value(),
        }),
        (Event::<F>::ConstrainEqual { left, right })@ == (EventView::ConstrainEqual {
            left: left@,
            right: right@,
        }),
        region@.index == region.index,
        region@.name == region.name@,
        region@.events.len() == region.events.len(),
        forall|i: int|
            0 <= i < region.events.len() ==> #[trigger] region@.events[i] == region.events@[i]@,
        layouter@.len() == layouter.regions.len(),
        forall|i: int|
            0 <= i < layouter.regions.len() ==> #[trigger] layouter@[i] == layouter.regions@[i]@,
{
}

/// More steps come behind those of a region, and change nothing else of it. The
/// next region has no step yet, and the number of those before it for its index.
pub proof fn law_regions(
    region: RegionView,
    events: Seq<EventView>,
    regions: Seq<RegionView>,
    name: Seq<char>,
)
    ensures
        region.then_do(events).index == region.index,
        region.then_do(events).name == region.name,
        region.then_do(events).events == region.events + events,
        next_region(regions, name).index == regions.len(),
        next_region(regions, name).name == name,
        next_region(regions, name).events.len() == 0,
{
}

/// Steps are placed if the cells that they assign hold what was assigned, and the
/// selectors that they switch on are one, at their rows behind the start.
pub proof fn law_placed(events: Seq<EventView>, grid: Grid, start: int)
    ensures
        all_placed(events, grid, start) <==> forall|i: int|
            0 <= i < events.len() ==> (match #[trigger] events[i] {
                EventView::EnableSelector { selector, simple, offset } => (grid.selector)(
                    selector,
                    start + offset,
                ) == 1,
                EventView::AssignAdvice { column, offset, value } => (grid.advice)(
                    column,
                    start + offset,
                ) == value,
                EventView::ConstrainEqual { left, right } => true,
            }),
{
}

} // verus!
