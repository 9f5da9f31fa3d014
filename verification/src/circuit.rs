//! The witness: what a circuit puts into its cells, region by region.
use crate::field::FieldExt;
use crate::plonk::{Advice, Column, Grid, Selector};
use vstd::prelude::*;

verus! {

/// What can go wrong when a witness is put together.
#[derive(Clone, Copy, Debug, PartialEq, Eq, Structural)]
pub enum Error {
    /// A value that a cell needs is not known.
    Synthesis,
}

/// A cell of a region.
#[derive(Clone, Copy, Debug)]
pub struct Cell {
    pub region_index: usize,
    pub row_offset: usize,
    pub column: Column<Advice>,
}

/// A cell of a region, by its region, its row in it and the index of its column.
pub struct CellView {
    pub region_index: int,
    pub row_offset: int,
    pub column: int,
}

impl View for Cell {
    type V = CellView;

    open spec fn view(&self) -> CellView {
        CellView {
            region_index: self.region_index as int,
            row_offset: self.row_offset as int,
            column: self.column.index as int,
        }
    }
}

/// One step in the assignment of a region.
#[derive(Debug)]
pub enum Event<F> {
    EnableSelector { selector: Selector, offset: usize },
    AssignAdvice { column: Column<Advice>, offset: usize, value: F },
    ConstrainEqual { left: Cell, right: Cell },
}

/// One step in the assignment of a region: columns by their index, field
/// elements by their value.
pub enum EventView {
    EnableSelector { selector: int, simple: bool, offset: int },
    AssignAdvice { column: int, offset: int, value: int },
    ConstrainEqual { left: CellView, right: CellView },
}

impl EventView {
    /// Whether the cells are as the step left them, in a region that starts at
    /// row `start`. Copy constraints span regions and say nothing here.
    pub open spec fn placed(self, grid: Grid, start: int) -> bool {
        match self {
            EventView::EnableSelector { selector, offset, .. } => (grid.selector)(
                selector,
                start + offset,
            ) == 1,
            EventView::AssignAdvice { column, offset, value } => (grid.advice)(
                column,
                start + offset,
            ) == value,
            EventView::ConstrainEqual { .. } => true,
        }
    }
}

impl<F: FieldExt> View for Event<F> {
    type V = EventView;

    open spec fn view(&self) -> EventView {
        match *self {
            Event::EnableSelector { selector, offset } => EventView::EnableSelector {
                selector: selector.index as int,
                simple: selector.simple,
                offset: offset as int,
            },
            Event::AssignAdvice { column, offset, value } => EventView::AssignAdvice {
                column: column.index as int,
                offset: offset as int,
                value: value.value(),
            },
            Event::ConstrainEqual { left, right } => EventView::ConstrainEqual {
                left: left@,
                right: right@,
            },
        }
    }
}

/// A region: cells whose relative places are fixed.
#[derive(Debug)]
pub struct Region<F> {
    pub index: usize,
    pub name: &'static str,
    pub events: Vec<Event<F>>,
}

/// A region, with the steps of its assignment in order.
#[verifier::ext_equal]
pub struct RegionView {
    pub index: int,
    pub name: Seq<char>,
    pub events: Seq<EventView>,
}

impl RegionView {
    /// The region after more steps.
    pub open spec fn then_do(self, events: Seq<EventView>) -> RegionView {
        RegionView { events: self.events + events, ..self }
    }

    /// Whether the cells are as the region assigned them, if it starts at row
    /// `start`.
    pub open spec fn placed(self, grid: Grid, start: int) -> bool {
        all_placed(self.events, grid, start)
    }
}

/// Whether the cells are as steps left them, in a region that starts at row
/// `start`.
pub open spec fn all_placed(events: Seq<EventView>, grid: Grid, start: int) -> bool {
    forall|i: int| 0 <= i < events.len() ==> (#[trigger] events[i]).placed(grid, start)
}

impl<F: FieldExt> View for Region<F> {
    type V = RegionView;

    open spec fn view(&self) -> RegionView {
        RegionView {
            index: self.index as int,
            name: self.name@,
            events: self.events@.map_values(|e: Event<F>| e@),
        }
    }
}

impl<F: FieldExt> Region<F> {
    fn record(&mut self, event: Event<F>)
        ensures
            final(self)@ == old(self)@.then_do(seq![event@]),
            final(self).events@ == old(self).events@.push(event),
            final(self).index == old(self).index,
            final(self).name == old(self).name,
    {
        self.events.push(event);
        assert(self@.events =~= old(self)@.events + seq![event@]);
    }

    /// Switches a selector on.
    pub fn enable_selector(&mut self, selector: Selector, offset: usize)
        ensures
            final(self)@ == old(self)@.then_do(
                seq![
                    EventView::EnableSelector {
                        selector: selector.index as int,
                        simple: selector.simple,
                        offset: offset as int,
                    },
                ],
            ),
            final(self).events@ == old(self).events@.push(
                (Event::EnableSelector { selector, offset }),
            ),
            final(self).name == old(self).name,
            final(self).index == old(self).index,
    {
        self.record(Event::EnableSelector { selector, offset });
    }

    /// Assigns a value to a cell, and returns the cell. An unknown value is an
    /// error, and leaves the region as it was.
    pub fn assign_advice(
        &mut self,
        column: Column<Advice>,
        offset: usize,
        value: Option<F>,
    ) -> (r: Result<Cell, Error>)
        ensures
            r == (match value {
                Some(_) => Ok::<Cell, Error>(
                    Cell { region_index: old(self).index, row_offset: offset, column },
                ),
                None => Err(Error::Synthesis),
            }),
            final(self)@ == (match value {
                Some(x) => old(self)@.then_do(
                    seq![
                        EventView::AssignAdvice {
                            column: column.index as int,
                            offset: offset as int,
                            value: x.value(),
                        },
                    ],
                ),
                None => old(self)@,
            }),
            final(self).events@ == (match value {
                Some(x) => old(self).events@.push(
                    (Event::AssignAdvice { column, offset, value: x }),
                ),
                None => old(self).events@,
            }),
            final(self).index == old(self).index,
            final(self).name == old(self).name,
    {
        match value {
            Some(x) => {
                self.record(Event::AssignAdvice { column, offset, value: x });
                Ok(Cell { region_index: self.index, row_offset: offset, column })
            },
            None => Err(Error::Synthesis),
        }
    }

    /// Constrains two cells to hold the same value.
    pub fn constrain_equal(&mut self, left: Cell, right: Cell)
        ensures
            final(self)@ == old(self)@.then_do(
                seq![EventView::ConstrainEqual { left: left@, right: right@ }],
            ),
            final(self).events@ == old(self).events@.push((Event::ConstrainEqual { left, right })),
            final(self).index == old(self).index,
            final(self).name == old(self).name,
    {
        self.record(Event::ConstrainEqual { left, right });
    }
}

/// The regions of a circuit, in the order of their assignment.
#[derive(Debug)]
pub struct Layouter<F> {
    pub regions: Vec<Region<F>>,
}

impl<F: FieldExt> View for Layouter<F> {
    type V = Seq<RegionView>;

    open spec fn view(&self) -> Seq<RegionView> {
        self.regions@.map_values(|r: Region<F>| r@)
    }
}

/// The region that comes next after `regions`, before its assignment.
pub open spec fn next_region(regions: Seq<RegionView>, name: Seq<char>) -> RegionView {
    RegionView { index: regions.len() as int, name, events: Seq::empty() }
}

impl<F: FieldExt> Layouter<F> {
    /// No region yet.
    pub fn new() -> (r: Self)
        ensures
            r@ == Seq::<RegionView>::empty(),
            r.regions@ == Seq::<Region<F>>::empty(),
    {
        let r = Layouter { regions: Vec::new() };
        assert(r@ =~= Seq::<RegionView>::empty());
        r
    }

    /// The next region, before its assignment.
    pub fn begin_region(&self, name: &'static str) -> (r: Region<F>)
        ensures
            r@ == next_region(self@, name@),
            r.index == self.regions.len(),
            r.name == name,
            r.events@ == Seq::<Event<F>>::empty(),
    {
        let r = Region { index: self.regions.len(), name, events: Vec::new() };
        assert(r@.events =~= Seq::<EventView>::empty());
        r
    }

    /// Adds a region that has been assigned.
    pub fn assign_region(&mut self, region: Region<F>)
        ensures
            final(self)@ == old(self)@.push(region@),
            final(self).regions@ == old(self).regions@.push(region),
    {
        self.regions.push(region);
        assert(self@ =~= old(self)@.push(region@));
    }
}

/// A limb of an integer that a chip has put into a cell.
#[derive(Debug)]
pub struct AssignedLimb<F> {
    pub value: Option<F>,
    pub cell: Cell,
}

/// An integer that a chip has put into cells, limb by limb.
#[derive(Debug)]
pub struct AssignedInteger<F> {
    pub limbs: Vec<AssignedLimb<F>>,
}

} // verus!
