use vstd::prelude::*;
use crate::geometry::{Coord, Size};
use crate::layers::{Layers, Location};
use entity_table::{ComponentTable, Entity};
use grid_2d::Grid;

verus! {

/// Relies on entity_table's `ComponentTable`: a sparse table from entity to value.
#[verifier::external_type_specification]
#[verifier::external_body]
#[verifier::reject_recursive_types(T)]
pub struct ExComponentTable<T>(entity_table::ComponentTable<T>);

/// Relies on grid_2d's `Grid`: a dense row-major array of cells.
#[verifier::external_type_specification]
#[verifier::external_body]
#[verifier::reject_recursive_types(T)]
pub struct ExGrid<T>(grid_2d::Grid<T>);

/// The entries of a location table, keyed by entity.
pub uninterp spec fn table_entries(t: ComponentTable<Location>) -> Map<Entity, Location>;

/// The number of the storage slot that a `ComponentTable` keeps for an entity
/// (the handle's private `index` field). The table holds at most one entry
/// per slot number.
pub uninterp spec fn entity_slot(e: Entity) -> u32;

/// The cells of an occupancy grid, in row-major order.
pub uninterp spec fn grid_cells(g: Grid<Layers>) -> Seq<Layers>;

/// The width and height a grid was made with.
pub uninterp spec fn grid_dims(g: Grid<Layers>) -> Size;

/// Relies on `ComponentTable::default`: a table with no entries.
#[verifier::external_body]
pub(crate) fn table_new() -> (r: ComponentTable<Location>)
    ensures
        forall|k: Entity| !(#[trigger] table_entries(r).contains_key(k)),
{
    ComponentTable::default()
}

/// Relies on `ComponentTable::get`: the value stored for exactly this entity.
#[verifier::external_body]
pub(crate) fn table_get(t: &ComponentTable<Location>, e: Entity) -> (r: Option<&Location>)
    ensures
        match r {
            Some(l) => table_entries(*t).contains_key(e) && *l == table_entries(*t)[e],
            None => !table_entries(*t).contains_key(e),
        },
{
    t.get(e)
}

/// Relies on `ComponentTable::insert`: the entry of `e` is set to `value`, an
/// entry of another entity with the same slot number is overwritten, and the
/// previous value of `e` itself is returned.
#[verifier::external_body]
pub(crate) fn table_insert(t: &mut ComponentTable<Location>, e: Entity, value: Location) -> (r:
    Option<Location>)
    ensures
        r == (if table_entries(*old(t)).contains_key(e) {
            Some(table_entries(*old(t))[e])
        } else {
            None
        }),
        table_entries(*final(t)) == table_entries(*old(t)).restrict(
            table_entries(*old(t)).dom().filter(|k: Entity| entity_slot(k) != entity_slot(e)),
        ).insert(e, value),
{
    t.insert(e, value)
}

/// Relies on `ComponentTable::remove`: it drops the entry in the slot of `e`,
/// which is the entry of `e` when the table holds one.
#[verifier::external_body]
pub(crate) fn table_remove(t: &mut ComponentTable<Location>, e: Entity) -> (r: Option<Location>)
    requires
        table_entries(*old(t)).contains_key(e),
    ensures
        r == Some(table_entries(*old(t))[e]),
        table_entries(*final(t)) == table_entries(*old(t)).remove(e),
{
    t.remove(e)
}

/// Relies on `ComponentTable::clear`: no entries remain.
#[verifier::external_body]
pub(crate) fn table_clear(t: &mut ComponentTable<Location>)
    ensures
        forall|k: Entity| !(#[trigger] table_entries(*final(t)).contains_key(k)),
{
    t.clear()
}

/// Relies on `ComponentTable::iter`: each entry once, in storage order.
#[verifier::external_body]
pub(crate) fn table_iter(t: &ComponentTable<Location>) -> (r: Vec<(Entity, Location)>)
    ensures
        forall|i: int|
            0 <= i < r@.len() ==> table_entries(*t).contains_key(#[trigger] r@[i].0)
                && table_entries(*t)[r@[i].0] == r@[i].1,
        forall|e: Entity|
            #[trigger] table_entries(*t).contains_key(e) ==> exists|i: int|
                0 <= i < r@.len() && (#[trigger] r@[i]).0 == e,
        forall|i: int, j: int| 0 <= i < j < r@.len() ==> r@[i].0 != r@[j].0,
{
    t.iter().map(|(e, l)| (e, *l)).collect()
}

/// Relies on `Grid::new_default`: every cell holds `Layers::default()`.
#[verifier::external_body]
pub(crate) fn grid_new(size: Size) -> (r: Grid<Layers>)
    requires
        size.allocatable(),
    ensures
        grid_dims(r) == size,
        grid_cells(r) == Seq::new((size.width * size.height) as nat, |i: int| Layers::vacant()),
{
    Grid::new_default(grid_2d::UCoord::new(size.width, size.height))
}

/// Relies on `Grid::size`: the size the grid was made with.
#[verifier::external_body]
pub(crate) fn grid_size(g: &Grid<Layers>) -> (r: Size)
    ensures
        r == grid_dims(*g),
{
    let s = g.size();
    Size { width: s.width(), height: s.height() }
}

/// Relies on `Grid::get`: the cell at a coordinate inside the grid, else nothing.
#[verifier::external_body]
pub(crate) fn grid_get(g: &Grid<Layers>, c: Coord) -> (r: Option<&Layers>)
    ensures
        match r {
            Some(cell) => grid_dims(*g).contains(c) && *cell == grid_cells(*g)[grid_dims(
                *g,
            ).index_of(c)],
            None => !grid_dims(*g).contains(c),
        },
{
    g.get(grid_2d::ICoord::new(c.x, c.y))
}

/// Relies on `Grid::get_checked`: the cell at a coordinate inside the grid.
#[verifier::external_body]
pub(crate) fn grid_get_checked(g: &Grid<Layers>, c: Coord) -> (r: &Layers)
    requires
        grid_dims(*g).contains(c),
    ensures
        *r == grid_cells(*g)[grid_dims(*g).index_of(c)],
{
    g.get_checked(grid_2d::ICoord::new(c.x, c.y))
}

/// Relies on `Grid::get_checked_mut`: writes the cell at a coordinate inside
/// the grid.
#[verifier::external_body]
pub(crate) fn grid_set(g: &mut Grid<Layers>, c: Coord, value: Layers)
    requires
        grid_dims(*old(g)).contains(c),
    ensures
        grid_dims(*final(g)) == grid_dims(*old(g)),
        grid_cells(*final(g)) == grid_cells(*old(g)).update(grid_dims(*old(g)).index_of(c), value),
{
    *g.get_checked_mut(grid_2d::ICoord::new(c.x, c.y)) = value;
}

/// Relies on `Grid::get_index_checked`: the cell at a row-major position.
#[verifier::external_body]
pub(crate) fn grid_get_index(g: &Grid<Layers>, i: usize) -> (r: &Layers)
    requires
        i < grid_cells(*g).len(),
    ensures
        *r == grid_cells(*g)[i as int],
{
    g.get_index_checked(i)
}

/// Relies on `Grid::get_index_checked_mut`: writes the cell at a row-major
/// position.
#[verifier::external_body]
pub(crate) fn grid_set_index(g: &mut Grid<Layers>, i: usize, value: Layers)
    requires
        i < grid_cells(*old(g)).len(),
    ensures
        grid_dims(*final(g)) == grid_dims(*old(g)),
        grid_cells(*final(g)) == grid_cells(*old(g)).update(i as int, value),
{
    *g.get_index_checked_mut(i) = value;
}

} // verus!
