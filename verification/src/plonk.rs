//! The arithmetisation: columns, the polynomial expressions over their cells,
//! and the gates and lookups that a circuit is configured with.
use crate::field::FieldExt;
use core::ops::{Add, Mul, Sub};
use vstd::prelude::*;

verus! {

/// A column that the prover fills in.
#[derive(Clone, Copy, Debug, PartialEq, Eq, Structural)]
pub struct Advice;

/// A column that is part of the circuit.
#[derive(Clone, Copy, Debug, PartialEq, Eq, Structural)]
pub struct Fixed;

/// A column of public inputs.
#[derive(Clone, Copy, Debug, PartialEq, Eq, Structural)]
pub struct Instance;

/// A column of the circuit's table, by its index among those of its type.
#[derive(Debug, PartialEq, Eq)]
pub struct Column<C> {
    pub index: usize,
    pub column_type: C,
}

impl<C: Copy> Clone for Column<C> {
    fn clone(&self) -> (r: Self)
        ensures
            r == *self,
    {
        *self
    }
}

impl<C: Copy> Copy for Column<C> {

}

/// A row, relative to the one that an expression is evaluated at.
#[derive(Clone, Copy, Debug, PartialEq, Eq, Structural)]
pub struct Rotation(pub i32);

impl Rotation {
    /// The row itself.
    pub fn cur() -> (r: Self)
        ensures
            r == Rotation(0),
    {
        Rotation(0)
    }
}

/// A column of zeros and ones that switches gates and lookups on. A simple one
/// may not occur in sums, nor be multiplied by another.
#[derive(Clone, Copy, Debug, PartialEq, Eq, Structural)]
pub struct Selector {
    pub index: usize,
    pub simple: bool,
}

/// The value of every cell, by the index of its column and its row.
pub struct Grid {
    pub selector: spec_fn(int, int) -> int,
    pub fixed: spec_fn(int, int) -> int,
    pub advice: spec_fn(int, int) -> int,
    pub instance: spec_fn(int, int) -> int,
}

/// A polynomial over the cells around a row, as it is written.
pub enum Poly {
    Constant(int),
    Selector(int, bool),
    Fixed(int, int),
    Advice(int, int),
    Instance(int, int),
    Negated(Box<Poly>),
    Sum(Box<Poly>, Box<Poly>),
    Product(Box<Poly>, Box<Poly>),
}

impl Poly {
    /// The value of the polynomial at a row, in the field with `p` elements.
    pub open spec fn eval(self, grid: Grid, row: int, p: int) -> int
        decreases self,
    {
        match self {
            Poly::Constant(c) => c % p,
            Poly::Selector(index, _) => (grid.selector)(index, row) % p,
            Poly::Fixed(column, rotation) => (grid.fixed)(column, row + rotation) % p,
            Poly::Advice(column, rotation) => (grid.advice)(column, row + rotation) % p,
            Poly::Instance(column, rotation) => (grid.instance)(column, row + rotation) % p,
            Poly::Negated(a) => (-a.eval(grid, row, p)) % p,
            Poly::Sum(a, b) => (a.eval(grid, row, p) + b.eval(grid, row, p)) % p,
            Poly::Product(a, b) => (a.eval(grid, row, p) * b.eval(grid, row, p)) % p,
        }
    }

    /// Whether a simple selector occurs in the polynomial.
    pub open spec fn contains_simple_selector(self) -> bool
        decreases self,
    {
        match self {
            Poly::Selector(_, simple) => simple,
            Poly::Negated(a) => a.contains_simple_selector(),
            Poly::Sum(a, b) => a.contains_simple_selector() || b.contains_simple_selector(),
            Poly::Product(a, b) => a.contains_simple_selector() || b.contains_simple_selector(),
            _ => false,
        }
    }

    /// The sum of two polynomials.
    pub open spec fn plus(self, rhs: Poly) -> Poly {
        Poly::Sum(Box::new(self), Box::new(rhs))
    }

    /// The difference of two polynomials.
    pub open spec fn minus(self, rhs: Poly) -> Poly {
        Poly::Sum(Box::new(self), Box::new(Poly::Negated(Box::new(rhs))))
    }

    /// The product of two polynomials.
    pub open spec fn times(self, rhs: Poly) -> Poly {
        Poly::Product(Box::new(self), Box::new(rhs))
    }
}

/// A polynomial expression over the cells around a row.
#[derive(Debug)]
pub enum Expression<F> {
    Constant(F),
    Selector(Selector),
    Fixed(Column<Fixed>, Rotation),
    Advice(Column<Advice>, Rotation),
    Instance(Column<Instance>, Rotation),
    Negated(Box<Expression<F>>),
    Sum(Box<Expression<F>>, Box<Expression<F>>),
    Product(Box<Expression<F>>, Box<Expression<F>>),
}

impl<F: FieldExt> Expression<F> {
    /// The polynomial that the expression writes down.
    pub open spec fn poly(self) -> Poly
        decreases self,
    {
        match self {
            Expression::Constant(c) => Poly::Constant(c.value()),
            Expression::Selector(s) => Poly::Selector(s.index as int, s.simple),
            Expression::Fixed(c, at) => Poly::Fixed(c.index as int, at.0 as int),
            Expression::Advice(c, at) => Poly::Advice(c.index as int, at.0 as int),
            Expression::Instance(c, at) => Poly::Instance(c.index as int, at.0 as int),
            Expression::Negated(a) => Poly::Negated(Box::new(a.poly())),
            Expression::Sum(a, b) => a.poly().plus(b.poly()),
            Expression::Product(a, b) => a.poly().times(b.poly()),
        }
    }
}

impl<F: FieldExt> View for Expression<F> {
    type V = Poly;

    open spec fn view(&self) -> Poly {
        self.poly()
    }
}

impl<F: FieldExt> Clone for Expression<F> {
    fn clone(&self) -> (r: Self)
        ensures
            r == *self,
        decreases self,
    {
        match self {
            Expression::Constant(c) => Expression::Constant(*c),
            Expression::Selector(s) => Expression::Selector(*s),
            Expression::Fixed(c, at) => Expression::Fixed(*c, *at),
            Expression::Advice(c, at) => Expression::Advice(*c, *at),
            Expression::Instance(c, at) => Expression::Instance(*c, *at),
            Expression::Negated(a) => Expression::Negated(Box::new((&**a).clone())),
            Expression::Sum(a, b) => Expression::Sum(
                Box::new((&**a).clone()),
                Box::new((&**b).clone()),
            ),
            Expression::Product(a, b) => Expression::Product(
                Box::new((&**a).clone()),
                Box::new((&**b).clone()),
            ),
        }
    }
}

impl<F: FieldExt> Add for Expression<F> {
    type Output = Expression<F>;

    fn add(self, rhs: Expression<F>) -> (r: Expression<F>)
        ensures
            r@ == self@.plus(rhs@),
    {
        Expression::Sum(Box::new(self), Box::new(rhs))
    }
}

impl<F: FieldExt> vstd::std_specs::ops::AddSpecImpl for Expression<F> {
    open spec fn obeys_add_spec() -> bool {
        true
    }

    open spec fn add_req(self, rhs: Expression<F>) -> bool {
        !self@.contains_simple_selector() && !rhs@.contains_simple_selector()
    }

    open spec fn add_spec(self, rhs: Expression<F>) -> Expression<F> {
        Expression::Sum(Box::new(self), Box::new(rhs))
    }
}

impl<F: FieldExt> Sub for Expression<F> {
    type Output = Expression<F>;

    fn sub(self, rhs: Expression<F>) -> (r: Expression<F>)
        ensures
            r@ == self@.minus(rhs@),
    {
        proof {
            reveal_with_fuel(Expression::poly, 3);
        }
        Expression::Sum(Box::new(self), Box::new(Expression::Negated(Box::new(rhs))))
    }
}

impl<F: FieldExt> vstd::std_specs::ops::SubSpecImpl for Expression<F> {
    open spec fn obeys_sub_spec() -> bool {
        true
    }

    open spec fn sub_req(self, rhs: Expression<F>) -> bool {
        !self@.contains_simple_selector() && !rhs@.contains_simple_selector()
    }

    open spec fn sub_spec(self, rhs: Expression<F>) -> Expression<F> {
        Expression::Sum(Box::new(self), Box::new(Expression::Negated(Box::new(rhs))))
    }
}

impl<F: FieldExt> Mul for Expression<F> {
    type Output = Expression<F>;

    fn mul(self, rhs: Expression<F>) -> (r: Expression<F>)
        ensures
            r@ == self@.times(rhs@),
    {
        Expression::Product(Box::new(self), Box::new(rhs))
    }
}

impl<F: FieldExt> vstd::std_specs::ops::MulSpecImpl for Expression<F> {
    open spec fn obeys_mul_spec() -> bool {
        true
    }

    open spec fn mul_req(self, rhs: Expression<F>) -> bool {
        !(self@.contains_simple_selector() && rhs@.contains_simple_selector())
    }

    open spec fn mul_spec(self, rhs: Expression<F>) -> Expression<F> {
        Expression::Product(Box::new(self), Box::new(rhs))
    }
}

/// One cell, or selector, that an expression reads.
#[derive(Clone, Copy, Debug)]
pub enum Query {
    Selector(Selector),
    Fixed(Column<Fixed>, Rotation),
    Advice(Column<Advice>, Rotation),
    Instance(Column<Instance>, Rotation),
}

impl View for Query {
    type V = Poly;

    open spec fn view(&self) -> Poly {
        match *self {
            Query::Selector(s) => Poly::Selector(s.index as int, s.simple),
            Query::Fixed(c, at) => Poly::Fixed(c.index as int, at.0 as int),
            Query::Advice(c, at) => Poly::Advice(c.index as int, at.0 as int),
            Query::Instance(c, at) => Poly::Instance(c.index as int, at.0 as int),
        }
    }
}

/// What a sequence of queries reads.
pub open spec fn queries(queried: Seq<Query>) -> Seq<Poly> {
    queried.map_values(|q: Query| q@)
}

/// The access that a gate or a lookup has to the cells around a row. It keeps
/// every query that was made, in order.
#[derive(Debug)]
pub struct VirtualCells {
    pub queried: Vec<Query>,
}

impl View for VirtualCells {
    type V = Seq<Poly>;

    open spec fn view(&self) -> Seq<Poly> {
        queries(self.queried@)
    }
}

impl VirtualCells {
    /// No query made yet.
    pub fn new() -> (r: Self)
        ensures
            r@ == Seq::<Poly>::empty(),
            r.queried@ == Seq::<Query>::empty(),
    {
        let r = VirtualCells { queried: Vec::new() };
        assert(r@ =~= Seq::<Poly>::empty());
        r
    }

    /// The same queries again.
    pub fn repeat(&self) -> (r: Self)
        ensures
            r@ == self@,
            r.queried@ == self.queried@,
    {
        let mut queried: Vec<Query> = Vec::new();
        for i in 0..self.queried.len()
            invariant
                queried@ == self.queried@.take(i as int),
        {
            queried.push(self.queried[i]);
            assert(self.queried@.take(i + 1) =~= self.queried@.take(i as int).push(
                self.queried@[i as int],
            ));
        }
        assert(self.queried@.take(self.queried.len() as int) =~= self.queried@);
        VirtualCells { queried }
    }

    fn record(&mut self, query: Query)
        ensures
            final(self)@ == old(self)@.push(query@),
            final(self).queried@ == old(self).queried@.push(query),
    {
        self.queried.push(query);
        assert(self@ =~= old(self)@.push(query@));
    }

    /// Reads a selector at the current row.
    pub fn query_selector<F: FieldExt>(&mut self, selector: Selector) -> (r: Expression<F>)
        ensures
            r == Expression::<F>::Selector(selector),
            r@ == Poly::Selector(selector.index as int, selector.simple),
            final(self)@ == old(self)@.push(r@),
            final(self).queried@ == old(self).queried@.push(Query::Selector(selector)),
    {
        self.record(Query::Selector(selector));
        Expression::Selector(selector)
    }

    /// Reads a fixed column at a relative row.
    pub fn query_fixed<F: FieldExt>(&mut self, column: Column<Fixed>, at: Rotation) -> (r:
        Expression<F>)
        ensures
            r == Expression::<F>::Fixed(column, at),
            r@ == Poly::Fixed(column.index as int, at.0 as int),
            final(self)@ == old(self)@.push(r@),
            final(self).queried@ == old(self).queried@.push(Query::Fixed(column, at)),
    {
        self.record(Query::Fixed(column, at));
        Expression::Fixed(column, at)
    }

    /// Reads an advice column at a relative row.
    pub fn query_advice<F: FieldExt>(&mut self, column: Column<Advice>, at: Rotation) -> (r:
        Expression<F>)
        ensures
            r == Expression::<F>::Advice(column, at),
            r@ == Poly::Advice(column.index as int, at.0 as int),
            final(self)@ == old(self)@.push(r@),
            final(self).queried@ == old(self).queried@.push(Query::Advice(column, at)),
    {
        self.record(Query::Advice(column, at));
        Expression::Advice(column, at)
    }

    /// Reads an instance column at a relative row.
    pub fn query_instance<F: FieldExt>(&mut self, column: Column<Instance>, at: Rotation) -> (r:
        Expression<F>)
        ensures
            r == Expression::<F>::Instance(column, at),
            r@ == Poly::Instance(column.index as int, at.0 as int),
            final(self)@ == old(self)@.push(r@),
            final(self).queried@ == old(self).queried@.push(Query::Instance(column, at)),
    {
        self.record(Query::Instance(column, at));
        Expression::Instance(column, at)
    }
}

/// The cells of advice columns at one rotation.
pub open spec fn advice_cells(columns: Seq<Column<Advice>>, rotation: int) -> Seq<Poly> {
    columns.map_values(|c: Column<Advice>| Poly::Advice(c.index as int, rotation))
}

/// The polynomials that expressions write down.
pub open spec fn polys<F: FieldExt>(expressions: Seq<Expression<F>>) -> Seq<Poly> {
    expressions.map_values(|e: Expression<F>| e@)
}

/// The polynomials that pairs of expressions write down.
pub open spec fn poly_pairs<F: FieldExt>(pairs: Seq<(Expression<F>, Expression<F>)>) -> Seq<
    (Poly, Poly),
> {
    pairs.map_values(|pair: (Expression<F>, Expression<F>)| (pair.0@, pair.1@))
}

/// A gate: polynomials that have to be zero at every row.
#[derive(Debug)]
pub struct Gate<F> {
    pub name: &'static str,
    pub queried: Vec<Query>,
    pub polys: Vec<Expression<F>>,
}

/// What a gate says.
#[verifier::ext_equal]
pub struct GateView {
    pub name: Seq<char>,
    pub queried: Seq<Poly>,
    pub polys: Seq<Poly>,
}

impl GateView {
    /// Whether all the polynomials are zero at a row.
    pub open spec fn holds(self, grid: Grid, row: int, p: int) -> bool {
        forall|i: int|
            0 <= i < self.polys.len() ==> (#[trigger] self.polys[i]).eval(grid, row, p) == 0
    }
}

impl<F: FieldExt> View for Gate<F> {
    type V = GateView;

    open spec fn view(&self) -> GateView {
        GateView {
            name: self.name@,
            queried: queries(self.queried@),
            polys: polys(self.polys@),
        }
    }
}

/// A lookup: at every row the inputs have to be a row of the table.
#[derive(Debug)]
pub struct Lookup<F> {
    pub name: Option<&'static str>,
    pub queried: Vec<Query>,
    /// Each input, with the table column that it is looked up in.
    pub table_map: Vec<(Expression<F>, Expression<F>)>,
}

/// What a lookup says.
#[verifier::ext_equal]
pub struct LookupView {
    pub name: Option<Seq<char>>,
    pub queried: Seq<Poly>,
    pub table_map: Seq<(Poly, Poly)>,
}

impl LookupView {
    /// Whether the inputs at `row` are what the table holds at `table_row`.
    pub open spec fn matches_at(self, grid: Grid, row: int, table_row: int, p: int) -> bool {
        forall|i: int|
            0 <= i < self.table_map.len() ==> (#[trigger] self.table_map[i]).0.eval(grid, row, p)
                == self.table_map[i].1.eval(grid, table_row, p)
    }

    /// Whether the lookup is satisfied at `row`, in a circuit with these rows.
    pub open spec fn holds(self, grid: Grid, row: int, rows: int, p: int) -> bool {
        exists|table_row: int|
            0 <= table_row < rows && #[trigger] self.matches_at(grid, row, table_row, p)
    }
}

impl<F: FieldExt> View for Lookup<F> {
    type V = LookupView;

    open spec fn view(&self) -> LookupView {
        LookupView {
            name: match self.name {
                Some(name) => Some(name@),
                None => None,
            },
            queried: queries(self.queried@),
            table_map: poly_pairs(self.table_map@),
        }
    }
}

/// Everything that a circuit is configured with.
#[derive(Debug)]
pub struct ConstraintSystem<F> {
    pub num_advice_columns: usize,
    pub num_selectors: usize,
    /// The advice columns whose cells may be constrained to equal others.
    pub equality: Vec<Column<Advice>>,
    pub gates: Vec<Gate<F>>,
    pub lookups: Vec<Lookup<F>>,
}

/// What a circuit is configured with.
#[verifier::ext_equal]
pub struct ConstraintSystemView {
    pub num_advice_columns: int,
    pub num_selectors: int,
    pub equality: Seq<int>,
    pub gates: Seq<GateView>,
    pub lookups: Seq<LookupView>,
}

/// The columns that copy constraints are enabled for, once they are for
/// `columns` too: none is listed twice.
pub open spec fn with_equality(equality: Seq<int>, columns: Seq<int>) -> Seq<int>
    decreases columns.len(),
{
    if columns.len() == 0 {
        equality
    } else {
        let before = with_equality(equality, columns.drop_last());
        if before.contains(columns.last()) {
            before
        } else {
            before.push(columns.last())
        }
    }
}

proof fn lemma_with_equality_one(equality: Seq<int>, column: int)
    ensures
        with_equality(equality, seq![column]) == (if equality.contains(column) {
            equality
        } else {
            equality.push(column)
        }),
{
    reveal_with_fuel(with_equality, 2);
    assert(seq![column].drop_last() =~= Seq::<int>::empty());
}

/// The indices of columns.
pub open spec fn indices<C>(columns: Seq<Column<C>>) -> Seq<int> {
    columns.map_values(|c: Column<C>| c.index as int)
}

impl<F: FieldExt> View for ConstraintSystem<F> {
    type V = ConstraintSystemView;

    open spec fn view(&self) -> ConstraintSystemView {
        ConstraintSystemView {
            num_advice_columns: self.num_advice_columns as int,
            num_selectors: self.num_selectors as int,
            equality: indices(self.equality@),
            gates: self.gates@.map_values(|g: Gate<F>| g@),
            lookups: self.lookups@.map_values(|l: Lookup<F>| l@),
        }
    }
}

impl<F: FieldExt> ConstraintSystem<F> {
    /// A circuit with no column and no constraint.
    pub fn new() -> (r: Self)
        ensures
            r@ == (ConstraintSystemView {
                num_advice_columns: 0,
                num_selectors: 0,
                equality: Seq::empty(),
                gates: Seq::empty(),
                lookups: Seq::empty(),
            }),
    {
        let r = ConstraintSystem {
            num_advice_columns: 0,
            num_selectors: 0,
            equality: Vec::new(),
            gates: Vec::new(),
            lookups: Vec::new(),
        };
        assert(r@.equality =~= Seq::<int>::empty());
        assert(r@.gates =~= Seq::<GateView>::empty());
        assert(r@.lookups =~= Seq::<LookupView>::empty());
        r
    }

    /// Allocates an advice column.
    pub fn advice_column(&mut self) -> (r: Column<Advice>)
        requires
            old(self).num_advice_columns < usize::MAX,
        ensures
            r.index == old(self).num_advice_columns,
            final(self)@ == (ConstraintSystemView {
                num_advice_columns: old(self)@.num_advice_columns + 1,
                ..old(self)@
            }),
            *final(self) == (ConstraintSystem {
                num_advice_columns: (old(self).num_advice_columns + 1) as usize,
                ..*old(self)
            }),
    {
        let index = self.num_advice_columns;
        self.num_advice_columns = index + 1;
        Column { index, column_type: Advice }
    }

    /// Allocates a selector that may occur anywhere in expressions.
    pub fn complex_selector(&mut self) -> (r: Selector)
        requires
            old(self).num_selectors < usize::MAX,
        ensures
            r == (Selector { index: old(self).num_selectors, simple: false }),
            final(self)@ == (ConstraintSystemView {
                num_selectors: old(self)@.num_selectors + 1,
                ..old(self)@
            }),
            *final(self) == (ConstraintSystem {
                num_selectors: (old(self).num_selectors + 1) as usize,
                ..*old(self)
            }),
    {
        let index = self.num_selectors;
        self.num_selectors = index + 1;
        Selector { index, simple: false }
    }

    /// Enables copy constraints on the cells of a column.
    pub fn enable_equality(&mut self, column: Column<Advice>)
        ensures
            final(self)@ == (ConstraintSystemView {
                equality: with_equality(old(self)@.equality, seq![column.index as int]),
                ..old(self)@
            }),
            final(self).equality@ == (if exists|i: int|
                0 <= i < old(self).equality.len() && (#[trigger] old(self).equality@[i]).index
                    == column.index {
                old(self).equality@
            } else {
                old(self).equality@.push(column)
            }),
            final(self).gates == old(self).gates,
            final(self).lookups == old(self).lookups,
    {
        proof {
            lemma_with_equality_one(self@.equality, column.index as int);
        }
        let mut i: usize = 0;
        while i < self.equality.len()
            invariant
                i <= self.equality.len(),
                *self == *old(self),
                with_equality(self@.equality, seq![column.index as int]) == (
                if self@.equality.contains(column.index as int) {
                    self@.equality
                } else {
                    self@.equality.push(column.index as int)
                }),
                forall|j: int| 0 <= j < i ==> (#[trigger] self.equality@[j]).index != column.index,
            decreases self.equality.len() - i,
        {
            if self.equality[i].index == column.index {
                assert(self@.equality[i as int] == column.index as int);
                return ;
            }
            i = i + 1;
        }
        assert(!self@.equality.contains(column.index as int));
        self.equality.push(column);
        assert(self@.equality =~= old(self)@.equality.push(column.index as int));
    }

    /// Adds a gate, with the queries that it made.
    pub fn create_gate(
        &mut self,
        name: &'static str,
        cells: VirtualCells,
        polys: Vec<Expression<F>>,
    )
        ensures
            final(self)@ == (ConstraintSystemView {
                gates: old(self)@.gates.push(
                    GateView { name: name@, queried: cells@, polys: self::polys(polys@) },
                ),
                ..old(self)@
            }),
            final(self).gates@ == old(self).gates@.push(
                (Gate { name, queried: cells.queried, polys }),
            ),
            final(self).lookups == old(self).lookups,
            final(self).equality == old(self).equality,
    {
        let gate = Gate { name, queried: cells.queried, polys };
        self.gates.push(gate);
        assert(self@.gates =~= old(self)@.gates.push(gate@));
    }

    /// Adds a lookup, with the queries that it made.
    pub fn lookup_any(
        &mut self,
        name: Option<&'static str>,
        cells: VirtualCells,
        table_map: Vec<(Expression<F>, Expression<F>)>,
    )
        ensures
            final(self)@ == (ConstraintSystemView {
                lookups: old(self)@.lookups.push(
                    LookupView {
                        name: match name {
                            Some(name) => Some(name@),
                            None => None,
                        },
                        queried: cells@,
                        table_map: poly_pairs(table_map@),
                    },
                ),
                ..old(self)@
            }),
            final(self).lookups@ == old(self).lookups@.push(
                (Lookup { name, queried: cells.queried, table_map }),
            ),
            final(self).gates == old(self).gates,
            final(self).equality == old(self).equality,
    {
        let lookup = Lookup { name, queried: cells.queried, table_map };
        self.lookups.push(lookup);
        assert(self@.lookups =~= old(self)@.lookups.push(lookup@));
    }
}

} // verus!
