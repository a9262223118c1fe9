use vstd::prelude::*;
use crate::geometry::{Coord, Size, lemma_index_in_range, lemma_index_injective, lemma_coord_at};
use crate::layers::{Layer, Layers, Location, lemma_with_slot};
use crate::outside::{
    entity_slot, grid_cells, grid_dims, grid_get, grid_get_checked, grid_get_index, grid_new,
    grid_set, grid_set_index, grid_size, table_clear, table_entries, table_get, table_insert,
    table_iter, table_new, table_remove,
};
use entity_table::{ComponentTable, Entity};
use grid_2d::Grid;

verus! {

broadcast use lemma_with_slot;

/// Why an update of an entity's location failed.
#[derive(Clone, Copy, Debug, PartialEq, Eq)]
pub enum UpdateError {
    OccupiedBy(Entity),
    DestinationOutOfBounds,
}

impl UpdateError {
    pub fn unwrap_occupied_by(self) -> (r: Entity)
        requires
            self is OccupiedBy,
        ensures
            r == self->OccupiedBy_0,
    {
        match self {
            UpdateError::OccupiedBy(entity) => entity,
            UpdateError::DestinationOutOfBounds => vstd::pervasive::unreached(),
        }
    }
}

/// Why a change of an entity's layer failed.
#[derive(Clone, Copy, Debug, PartialEq, Eq)]
pub enum UpdateLayerError {
    OccupiedBy(Entity),
    EntityHasNoCoord,
}

impl UpdateLayerError {
    pub fn unwrap_occupied_by(self) -> (r: Entity)
        requires
            self is OccupiedBy,
        ensures
            r == self->OccupiedBy_0,
    {
        match self {
            UpdateLayerError::OccupiedBy(entity) => entity,
            UpdateLayerError::EntityHasNoCoord => vstd::pervasive::unreached(),
        }
    }
}

/// The entity named by a layer-only operation has no location.
#[derive(Clone, Copy, Debug, PartialEq, Eq, Structural)]
pub struct EntityHasNoCoord;

/// What persists of a table: the location index and the grid's size. The
/// grid itself is rebuilt from these.
pub struct SpatialSerialize {
    pub entries: Vec<(Entity, Location)>,
    pub size: Size,
}

/// `s` lists the entries of `m`, each entity once.
pub open spec fn lists(s: Seq<(Entity, Location)>, m: Map<Entity, Location>) -> bool {
    &&& forall|i: int|
        0 <= i < s.len() ==> m.contains_key(#[trigger] s[i].0) && m[s[i].0] == s[i].1
    &&& forall|e: Entity|
        #[trigger] m.contains_key(e) ==> exists|i: int| 0 <= i < s.len() && (#[trigger] s[i]).0 == e
    &&& forall|i: int, j: int| 0 <= i < j < s.len() ==> s[i].0 != s[j].0
}

/// Every layered entry lies inside a grid of `size`, and no two entries of
/// different entities claim the same slot of the same cell.
pub open spec fn claims_fit(size: Size, s: Seq<(Entity, Location)>) -> bool {
    &&& forall|i: int|
        0 <= i < s.len() && (#[trigger] s[i]).1.layer is Some ==> size.contains(s[i].1.coord)
    &&& forall|i: int, j: int|
        0 <= i < s.len() && 0 <= j < s.len() && (#[trigger] s[i]).0 != (#[trigger] s[j]).0
            && s[i].1.layer is Some ==> s[i].1 != s[j].1
}

/// No two entries share an entity, nor a storage slot number.
pub open spec fn distinct_entities(s: Seq<(Entity, Location)>) -> bool {
    forall|i: int, j: int|
        0 <= i < s.len() && 0 <= j < s.len() && i != j ==> (#[trigger] s[i]).0 != (#[trigger] s[j]).0
            && entity_slot(s[i].0) != entity_slot(s[j].0)
}

/// Locations of entities, indexed both by entity and by grid cell.
pub struct SpatialTable {
    location_component: ComponentTable<Location>,
    spatial_grid: Grid<Layers>,
}

impl SpatialTable {
    /// The location index: where each tracked entity is.
    pub closed spec fn index(self) -> Map<Entity, Location> {
        table_entries(self.location_component)
    }

    /// The occupancy grid's cells, row-major.
    pub closed spec fn cells(self) -> Seq<Layers> {
        grid_cells(self.spatial_grid)
    }

    pub closed spec fn size(self) -> Size {
        grid_dims(self.spatial_grid)
    }

    pub open spec fn cell(self, c: Coord) -> Layers {
        self.cells()[self.size().index_of(c)]
    }

    /// The occupant of one slot of one cell, as the grid records it.
    pub open spec fn occupant(self, c: Coord, layer: Layer) -> Option<Entity> {
        self.cell(c).slot(layer)
    }

    /// Whether `e` may be given a location without displacing another tracked
    /// entity: handles of live entities of one allocator always may.
    pub open spec fn admits(self, e: Entity) -> bool {
        self.index().contains_key(e) || forall|k: Entity|
            #[trigger] self.index().contains_key(k) ==> entity_slot(k) != entity_slot(e)
    }

    /// The two indexes agree: an entity is at a cell's layer slot exactly when
    /// its location names that cell and layer.
    pub open spec fn wf(self) -> bool {
        &&& self.shaped()
        &&& forall|a: Entity, b: Entity|
            #[trigger] self.index().contains_key(a) && #[trigger] self.index().contains_key(b)
                && a != b ==> entity_slot(a) != entity_slot(b)
        &&& forall|e: Entity|
            #[trigger] self.index().contains_key(e) && self.index()[e].layer is Some ==> {
                &&& self.size().contains(self.index()[e].coord)
                &&& self.occupant(self.index()[e].coord, self.index()[e].layer->Some_0) == Some(e)
            }
        &&& forall|c: Coord, l: Layer|
            self.size().contains(c) && (#[trigger] self.occupant(c, l)) is Some ==> {
                &&& self.index().contains_key(self.occupant(c, l)->Some_0)
                &&& self.index()[self.occupant(c, l)->Some_0] == (Location {
                    coord: c,
                    layer: Some(l),
                })
            }
    }

    /// The outcome that `update(e, location)` owes.
    pub open spec fn update_outcome(self, e: Entity, location: Location) -> Result<(), UpdateError> {
        match location.layer {
            None => Ok(()),
            Some(l) => if !self.size().contains(location.coord) {
                Err(UpdateError::DestinationOutOfBounds)
            } else {
                match self.occupant(location.coord, l) {
                    Some(o) => if o != e {
                        Err(UpdateError::OccupiedBy(o))
                    } else {
                        Ok(())
                    },
                    None => Ok(()),
                }
            },
        }
    }

    /// The grid has as many cells as its size says.
    pub open spec fn shaped(self) -> bool {
        &&& self.size().allocatable()
        &&& self.cells().len() == self.size().width * self.size().height
    }

    proof fn lemma_cell_after_set(self, other: Self, c: Coord, value: Layers)
        requires
            self.shaped(),
            self.size().contains(c),
            other.size() == self.size(),
            other.cells() == self.cells().update(self.size().index_of(c), value),
        ensures
            forall|d: Coord|
                self.size().contains(d) ==> #[trigger] other.cell(d) == if d == c {
                    value
                } else {
                    self.cell(d)
                },
            other.cells().len() == self.cells().len(),
    {
        lemma_index_in_range(self.size(), c);
        assert forall|d: Coord| self.size().contains(d) implies #[trigger] other.cell(d) == if d
            == c {
            value
        } else {
            self.cell(d)
        } by {
            lemma_index_in_range(self.size(), d);
            if d != c && self.size().index_of(d) == self.size().index_of(c) {
                lemma_index_injective(self.size(), d, c);
            }
        }
    }

    pub fn new(size: Size) -> (r: SpatialTable)
        requires
            size.allocatable(),
        ensures
            r.wf(),
            r.size() == size,
            forall|e: Entity| !(#[trigger] r.index().contains_key(e)),
            forall|c: Coord, l: Layer| size.contains(c) ==> (#[trigger] r.occupant(c, l)).is_none(),
    {
        let r = SpatialTable { location_component: table_new(), spatial_grid: grid_new(size) };
        assert forall|c: Coord, l: Layer| size.contains(c) implies (#[trigger] r.occupant(
            c,
            l,
        )).is_none() by {
            lemma_index_in_range(size, c);
        }
        r
    }

    /// Places `entity` at `location`, first claiming the destination slot and
    /// only then releasing the slot it held before.
    pub fn update(&mut self, entity: Entity, location: Location) -> (r: Result<(), UpdateError>)
        requires
            old(self).wf(),
            old(self).admits(entity),
        ensures
            final(self).wf(),
            final(self).size() == old(self).size(),
            r == old(self).update_outcome(entity, location),
            r is Ok ==> final(self).index() == old(self).index().insert(entity, location),
            r is Err ==> *final(self) == *old(self),
    {
        let ghost start = *self;
        if let Some(layer) = location.layer {
            match grid_get(&self.spatial_grid, location.coord) {
                None => {
                    return Err(UpdateError::DestinationOutOfBounds);
                },
                Some(cell) => {
                    let already = match table_get(&self.location_component, entity) {
                        Some(current) => *current == location,
                        None => false,
                    };
                    if !already {
                        if let Some(occupant) = cell.select(layer) {
                            return Err(UpdateError::OccupiedBy(occupant));
                        }
                        self.set_slot(location.coord, layer, Some(entity));
                    }
                },
            }
        }
        let ghost mid = *self;
        let previous = table_insert(&mut self.location_component, entity, location);
        proof {
            assert(self.index() =~= start.index().insert(entity, location));
        }
        let ghost inserted = *self;
        assert(inserted.cells() == mid.cells());
        assert(previous == start.index().get(entity)) by {
            if start.index().contains_key(entity) {
            }
        }
        if let Some(p) = previous {
            if let Some(pl) = p.layer {
                if p != location {
                    self.set_slot(p.coord, pl, None);
                }
            }
        }
        proof {
            let fin = *self;
            assert forall|k: Entity| #[trigger]
                fin.index().contains_key(k) && fin.index()[k].layer is Some implies {
                &&& fin.size().contains(fin.index()[k].coord)
                &&& fin.occupant(fin.index()[k].coord, fin.index()[k].layer->Some_0) == Some(k)
            } by {
                if k != entity {
                    assert(start.index().contains_key(k));
                    let kc = start.index()[k].coord;
                    let kl = start.index()[k].layer->Some_0;
                    assert(start.occupant(kc, kl) == Some(k));
                    assert(mid.occupant(kc, kl) == Some(k));
                    assert(inserted.occupant(kc, kl) == Some(k));
                    if previous is Some && previous->Some_0.layer is Some {
                        let pp = previous->Some_0;
                        assert(start.occupant(pp.coord, pp.layer->Some_0) == Some(entity));
                    }
                } else {
                    let c = location.coord;
                    let ll = location.layer->Some_0;
                    assert(mid.occupant(c, ll) == Some(entity));
                    assert(inserted.occupant(c, ll) == Some(entity));
                }
            }
            assert forall|d: Coord, l: Layer|
                fin.size().contains(d) && (#[trigger] fin.occupant(d, l)) is Some implies {
                &&& fin.index().contains_key(fin.occupant(d, l)->Some_0)
                &&& fin.index()[fin.occupant(d, l)->Some_0] == (Location {
                    coord: d,
                    layer: Some(l),
                })
            } by {
                if location.layer != Some(l) || location.coord != d {
                    assert(mid.occupant(d, l) == start.occupant(d, l));
                    assert(fin.occupant(d, l) == start.occupant(d, l) || fin.occupant(d, l) is None);
                }
            }
        }
        Ok(())
    }

    /// The location that `update_coord(e, coord)` gives `e` when it succeeds.
    pub open spec fn moved_location(self, e: Entity, coord: Coord) -> Location {
        if self.index().contains_key(e) {
            Location { coord, layer: self.index()[e].layer }
        } else {
            Location { coord, layer: None }
        }
    }

    /// The outcome that `update_coord(e, coord)` owes.
    pub open spec fn update_coord_outcome(self, e: Entity, coord: Coord) -> Result<(), UpdateError> {
        if self.index().contains_key(e) && self.index()[e].coord == coord {
            Ok(())
        } else {
            self.update_outcome(e, self.moved_location(e, coord))
        }
    }

    /// Moves `entity` to `coord` on the layer it already has; an untracked
    /// entity becomes tracked there with no layer.
    pub fn update_coord(&mut self, entity: Entity, coord: Coord) -> (r: Result<(), UpdateError>)
        requires
            old(self).wf(),
            old(self).admits(entity),
        ensures
            final(self).wf(),
            final(self).size() == old(self).size(),
            r == old(self).update_coord_outcome(entity, coord),
            r is Ok ==> final(self).index() == old(self).index().insert(
                entity,
                old(self).moved_location(entity, coord),
            ),
            r is Err ==> *final(self) == *old(self),
            old(self).index().contains_key(entity) && old(self).index()[entity].coord == coord
                ==> *final(self) == *old(self),
    {
        match table_get(&self.location_component, entity) {
            Some(current) => {
                if current.coord == coord {
                    proof {
                        assert(self.index().insert(entity, *current) =~= self.index());
                    }
                    Ok(())
                } else {
                    let layer = current.layer;
                    self.update(entity, Location { coord, layer })
                }
            },
            None => self.update(entity, Location { coord, layer: None }),
        }
    }

    /// The location that `update_layer(e, layer)` gives a tracked `e`.
    pub open spec fn relayered_location(self, e: Entity, layer: Layer) -> Location {
        Location { coord: self.index()[e].coord, layer: Some(layer) }
    }

    /// The outcome that `update_layer(e, layer)` owes.
    pub open spec fn update_layer_outcome(self, e: Entity, layer: Layer) -> Result<
        (),
        UpdateLayerError,
    > {
        if !self.index().contains_key(e) {
            Err(UpdateLayerError::EntityHasNoCoord)
        } else if self.index()[e].layer == Some(layer) {
            Ok(())
        } else {
            match self.occupant(self.index()[e].coord, layer) {
                Some(o) => Err(UpdateLayerError::OccupiedBy(o)),
                None => Ok(()),
            }
        }
    }

    /// Puts a tracked `entity` on `layer` at the coordinate it already has.
    /// Its coordinate must lie inside the grid unless the layer is unchanged.
    pub fn update_layer(&mut self, entity: Entity, layer: Layer) -> (r: Result<(), UpdateLayerError>)
        requires
            old(self).wf(),
            old(self).index().contains_key(entity) && old(self).index()[entity].layer != Some(
                layer,
            ) ==> old(self).size().contains(old(self).index()[entity].coord),
        ensures
            final(self).wf(),
            final(self).size() == old(self).size(),
            r == old(self).update_layer_outcome(entity, layer),
            r is Ok ==> final(self).index()
                == old(self).index().insert(entity, old(self).relayered_location(entity, layer)),
            r is Err ==> *final(self) == *old(self),
            old(self).index().contains_key(entity) && old(self).index()[entity].layer == Some(layer)
                ==> *final(self) == *old(self),
    {
        match table_get(&self.location_component, entity) {
            Some(current) => {
                if current.layer == Some(layer) {
                    proof {
                        assert(self.index().insert(entity, *current) =~= self.index());
                    }
                    Ok(())
                } else {
                    let coord = current.coord;
                    match self.update(entity, Location { coord, layer: Some(layer) }) {
                        Ok(()) => Ok(()),
                        Err(UpdateError::OccupiedBy(o)) => Err(UpdateLayerError::OccupiedBy(o)),
                        Err(UpdateError::DestinationOutOfBounds) => vstd::pervasive::unreached(),
                    }
                }
            },
            None => Err(UpdateLayerError::EntityHasNoCoord),
        }
    }

    /// Releases the layer slot of a tracked `entity`; it stays tracked at the
    /// same coordinate with no layer.
    pub fn clear_layer(&mut self, entity: Entity) -> (r: Result<(), EntityHasNoCoord>)
        requires
            old(self).wf(),
        ensures
            final(self).wf(),
            final(self).size() == old(self).size(),
            r is Ok <==> old(self).index().contains_key(entity),
            r is Ok ==> final(self).index() == old(self).index().insert(
                entity,
                Location { coord: old(self).index()[entity].coord, layer: None },
            ),
            r is Err ==> *final(self) == *old(self),
    {
        match table_get(&self.location_component, entity) {
            Some(current) => {
                let coord = current.coord;
                if current.layer.is_some() {
                    let _ = self.update(entity, Location { coord, layer: None });
                } else {
                    proof {
                        assert(self.index().insert(entity, *current) =~= self.index());
                    }
                }
                Ok(())
            },
            None => Err(EntityHasNoCoord),
        }
    }

    /// Forgets `entity`, releasing the slot it held; an untracked entity is
    /// left alone.
    pub fn remove(&mut self, entity: Entity)
        requires
            old(self).wf(),
        ensures
            final(self).wf(),
            final(self).size() == old(self).size(),
            final(self).index() == old(self).index().remove(entity),
    {
        let ghost start = *self;
        match table_get(&self.location_component, entity) {
            Some(current) => {
                let location = *current;
                let removed = table_remove(&mut self.location_component, entity);
                let ghost unlisted = *self;
                if let Some(layer) = location.layer {
                    self.set_slot(location.coord, layer, None);
                }
                proof {
                    let fin = *self;
                    assert forall|k: Entity| #[trigger]
                        fin.index().contains_key(k) && fin.index()[k].layer is Some implies {
                        &&& fin.size().contains(fin.index()[k].coord)
                        &&& fin.occupant(fin.index()[k].coord, fin.index()[k].layer->Some_0)
                            == Some(k)
                    } by {
                        let kc = start.index()[k].coord;
                        let kl = start.index()[k].layer->Some_0;
                        assert(start.occupant(kc, kl) == Some(k));
                        assert(unlisted.occupant(kc, kl) == Some(k));
                    }
                    assert forall|d: Coord, l: Layer|
                        fin.size().contains(d) && (#[trigger] fin.occupant(d, l)) is Some implies {
                        &&& fin.index().contains_key(fin.occupant(d, l)->Some_0)
                        &&& fin.index()[fin.occupant(d, l)->Some_0] == (Location {
                            coord: d,
                            layer: Some(l),
                        })
                    } by {
                        assert(unlisted.occupant(d, l) == start.occupant(d, l));
                    }
                }
            },
            None => {
                proof {
                    assert(self.index().remove(entity) =~= self.index());
                }
            },
        }
    }

    /// Forgets every entity and empties every cell; the size is kept.
    pub fn clear(&mut self)
        requires
            old(self).wf(),
        ensures
            final(self).wf(),
            final(self).size() == old(self).size(),
            forall|e: Entity| !(#[trigger] final(self).index().contains_key(e)),
            forall|c: Coord, l: Layer|
                final(self).size().contains(c) ==> (#[trigger] final(self).occupant(c, l)).is_none(),
    {
        table_clear(&mut self.location_component);
        let n: u32 = grid_size(&self.spatial_grid).width * grid_size(&self.spatial_grid).height;
        let ghost emptied = self.location_component;
        let mut i: u32 = 0;
        while i < n
            invariant
                self.shaped(),
                self.location_component == emptied,
                self.size() == old(self).size(),
                n == self.cells().len(),
                0 <= i <= n,
                forall|k: Entity| !(#[trigger] table_entries(emptied).contains_key(k)),
                forall|j: int| 0 <= j < i ==> #[trigger] self.cells()[j] == Layers::vacant(),
            decreases n - i,
        {
            grid_set_index(&mut self.spatial_grid, i as usize, Layers::empty());
            i = i + 1;
        }
        assert forall|c: Coord, l: Layer|
            self.size().contains(c) implies (#[trigger] self.occupant(c, l)).is_none() by {
            lemma_index_in_range(self.size(), c);
        }
    }

    /// Every cell with its coordinate, in row-major order.
    pub fn enumerate(&self) -> (r: Vec<(Coord, Layers)>)
        requires
            self.wf(),
        ensures
            r@.len() == self.cells().len(),
            forall|i: int|
                0 <= i < r@.len() ==> #[trigger] r@[i] == (self.size().coord_at(i), self.cells()[i]),
    {
        let size = grid_size(&self.spatial_grid);
        let n: u32 = size.width * size.height;
        let mut r: Vec<(Coord, Layers)> = Vec::new();
        let mut i: u32 = 0;
        while i < n
            invariant
                self.wf(),
                size == self.size(),
                n == self.cells().len(),
                0 <= i <= n,
                r@.len() == i,
                forall|j: int|
                    0 <= j < i ==> #[trigger] r@[j] == (self.size().coord_at(j), self.cells()[j]),
            decreases n - i,
        {
            let coord = Coord { x: (i % size.width) as i32, y: (i / size.width) as i32 };
            proof {
                lemma_coord_at(size, i as int);
            }
            let cell = *grid_get_index(&self.spatial_grid, i as usize);
            r.push((coord, cell));
            i = i + 1;
        }
        r
    }

    pub fn grid_size(&self) -> (r: Size)
        ensures
            r == self.size(),
    {
        grid_size(&self.spatial_grid)
    }

    /// The cell at `coord`, or nothing outside the grid.
    pub fn layers_at(&self, coord: Coord) -> (r: Option<&Layers>)
        ensures
            match r {
                Some(cell) => self.size().contains(coord) && *cell == self.cell(coord),
                None => !self.size().contains(coord),
            },
    {
        grid_get(&self.spatial_grid, coord)
    }

    /// The cell at `coord`, which must lie inside the grid.
    pub fn layers_at_checked(&self, coord: Coord) -> (r: &Layers)
        requires
            self.size().contains(coord),
        ensures
            *r == self.cell(coord),
    {
        grid_get_checked(&self.spatial_grid, coord)
    }

    pub fn location_of(&self, entity: Entity) -> (r: Option<&Location>)
        ensures
            match r {
                Some(l) => self.index().contains_key(entity) && *l == self.index()[entity],
                None => !self.index().contains_key(entity),
            },
    {
        table_get(&self.location_component, entity)
    }

    pub fn coord_of(&self, entity: Entity) -> (r: Option<Coord>)
        ensures
            r == (if self.index().contains_key(entity) {
                Some(self.index()[entity].coord)
            } else {
                None
            }),
    {
        match self.location_of(entity) {
            Some(l) => Some(l.coord),
            None => None,
        }
    }

    pub fn layer_of(&self, entity: Entity) -> (r: Option<Layer>)
        ensures
            r == (if self.index().contains_key(entity) {
                self.index()[entity].layer
            } else {
                None
            }),
    {
        match self.location_of(entity) {
            Some(l) => l.layer,
            None => None,
        }
    }

    /// The index holds only entries of `s`, and, where the entities of `s`
    /// are distinct, all of them.
    pub open spec fn rebuilt_from(self, s: Seq<(Entity, Location)>) -> bool {
        &&& forall|e: Entity|
            #[trigger] self.index().contains_key(e) ==> exists|i: int|
                0 <= i < s.len() && #[trigger] s[i] == (e, self.index()[e])
        &&& distinct_entities(s) ==> forall|i: int|
            0 <= i < s.len() ==> self.index().contains_key(#[trigger] s[i].0) && self.index()[s[i].0]
                == s[i].1
    }

    /// The persisted form: the location index and the grid's size.
    pub fn to_serialize(&self) -> (r: SpatialSerialize)
        ensures
            r.size == self.size(),
            lists(r.entries@, self.index()),
    {
        SpatialSerialize {
            entries: table_iter(&self.location_component),
            size: grid_size(&self.spatial_grid),
        }
    }

    /// Rebuilds a table from its persisted form, claiming the slot of each
    /// layered entry in a fresh grid.
    pub fn from_serialize(s: SpatialSerialize) -> (r: SpatialTable)
        requires
            s.size.allocatable(),
            claims_fit(s.size, s.entries@),
        ensures
            r.wf(),
            r.size() == s.size,
            r.rebuilt_from(s.entries@),
    {
        let entries = s.entries;
        let mut table = table_new();
        let mut i: usize = 0;
        while i < entries.len()
            invariant
                0 <= i <= entries@.len(),
                forall|a: Entity, b: Entity|
                    #[trigger] table_entries(table).contains_key(a) && #[trigger] table_entries(
                        table,
                    ).contains_key(b) && a != b ==> entity_slot(a) != entity_slot(b),
                forall|e: Entity|
                    #[trigger] table_entries(table).contains_key(e) ==> exists|j: int|
                        0 <= j < i && #[trigger] entries@[j] == (e, table_entries(table)[e]),
                distinct_entities(entries@) ==> forall|j: int|
                    0 <= j < i ==> table_entries(table).contains_key(#[trigger] entries@[j].0)
                        && table_entries(table)[entries@[j].0] == entries@[j].1,
            decreases entries@.len() - i,
        {
            let (entity, location) = entries[i];
            let ghost before = table_entries(table);
            let _ = table_insert(&mut table, entity, location);
            proof {
                let after = table_entries(table);
                assert forall|e: Entity| #[trigger] after.contains_key(e) implies exists|j: int|
                    0 <= j < i + 1 && #[trigger] entries@[j] == (e, after[e]) by {
                    if e == entity {
                        assert(entries@[i as int] == (e, after[e]));
                    } else {
                        assert(before.contains_key(e));
                    }
                }
                if distinct_entities(entries@) {
                    assert forall|j: int| 0 <= j < i + 1 implies after.contains_key(
                        #[trigger] entries@[j].0,
                    ) && after[entries@[j].0] == entries@[j].1 by {
                        if j < i {
                            assert(entries@[j].0 != entries@[i as int].0);
                            assert(entity_slot(entries@[j].0) != entity_slot(entity));
                        }
                    }
                }
            }
            i = i + 1;
        }
        let listed = table_iter(&table);
        let mut grid = grid_new(s.size);
        let ghost m = table_entries(table);
        assert forall|c: Coord, l: Layer|
            s.size.contains(c) implies (#[trigger] grid_cells(grid)[s.size.index_of(c)].slot(
            l,
        )) is None by {
            lemma_index_in_range(s.size, c);
        }
        let mut j: usize = 0;
        while j < listed.len()
            invariant
                m == table_entries(table),
                lists(listed@, m),
                forall|e: Entity|
                    #[trigger] m.contains_key(e) ==> exists|k: int|
                        0 <= k < entries@.len() && #[trigger] entries@[k] == (e, m[e]),
                claims_fit(s.size, entries@),
                0 <= j <= listed@.len(),
                grid_dims(grid) == s.size,
                s.size.allocatable(),
                grid_cells(grid).len() == s.size.width * s.size.height,
                forall|k: int|
                    0 <= k < j && (#[trigger] listed@[k]).1.layer is Some ==> grid_cells(
                        grid,
                    )[s.size.index_of(listed@[k].1.coord)].slot(listed@[k].1.layer->Some_0) == Some(
                        listed@[k].0,
                    ),
                forall|c: Coord, l: Layer|
                    s.size.contains(c) && (#[trigger] grid_cells(grid)[s.size.index_of(c)].slot(
                        l,
                    )) is Some ==> exists|k: int|
                        0 <= k < j && #[trigger] listed@[k] == (
                            grid_cells(grid)[s.size.index_of(c)].slot(l)->Some_0,
                            Location { coord: c, layer: Some(l) },
                        ),
            decreases listed@.len() - j,
        {
            let (entity, location) = listed[j];
            if let Some(layer) = location.layer {
                let ghost g0 = grid;
                proof {
                    let k0 = choose|k: int|
                        0 <= k < entries@.len() && #[trigger] entries@[k] == (entity, m[entity]);
                    assert(entries@[k0] == (entity, m[entity]));
                }
                let mut cell = *grid_get_checked(&grid, location.coord);
                proof {
                    lemma_index_in_range(s.size, location.coord);
                    if cell.slot(layer) is Some {
                        let other = cell.slot(layer)->Some_0;
                        let k = choose|k: int|
                            0 <= k < j && #[trigger] listed@[k] == (
                                other,
                                Location { coord: location.coord, layer: Some(layer) },
                            );
                        assert(listed@[k] == (other, location));
                        assert(other != entity);
                        let ka = choose|ka: int|
                            0 <= ka < entries@.len() && #[trigger] entries@[ka] == (other, m[other]);
                        let kb = choose|kb: int|
                            0 <= kb < entries@.len() && #[trigger] entries@[kb] == (entity, m[entity]);
                        assert(entries@[ka].0 != entries@[kb].0);
                        assert(false);
                    }
                }
                cell.set(layer, Some(entity));
                grid_set(&mut grid, location.coord, cell);
                proof {
                    let size = s.size;
                    let c0 = location.coord;
                    assert forall|d: Coord|
                        size.contains(d) implies #[trigger] grid_cells(grid)[size.index_of(d)] == if d
                        == c0 {
                        cell
                    } else {
                        grid_cells(g0)[size.index_of(d)]
                    } by {
                        lemma_index_in_range(size, d);
                        if d != c0 && size.index_of(d) == size.index_of(c0) {
                            lemma_index_injective(size, d, c0);
                        }
                    }
                    assert forall|k: int|
                        0 <= k < j + 1 && (#[trigger] listed@[k]).1.layer is Some implies grid_cells(
                            grid,
                        )[size.index_of(listed@[k].1.coord)].slot(listed@[k].1.layer->Some_0)
                            == Some(listed@[k].0) by {
                        if k < j {
                            let kc = listed@[k].1.coord;
                            let kl = listed@[k].1.layer->Some_0;
                            let ka = choose|ka: int|
                                0 <= ka < entries@.len() && #[trigger] entries@[ka] == (
                                    listed@[k].0,
                                    m[listed@[k].0],
                                );
                            assert(size.contains(kc));
                            if kc == c0 && kl == layer {
                                assert(listed@[k].0 != entity);
                                let kb = choose|kb: int|
                                    0 <= kb < entries@.len() && #[trigger] entries@[kb] == (
                                        entity,
                                        m[entity],
                                    );
                                assert(entries@[ka].0 != entries@[kb].0);
                            }
                        }
                    }
                    assert forall|c: Coord, l: Layer|
                        size.contains(c) && (#[trigger] grid_cells(grid)[size.index_of(c)].slot(
                            l,
                        )) is Some implies exists|k: int|
                        0 <= k < j + 1 && #[trigger] listed@[k] == (
                            grid_cells(grid)[size.index_of(c)].slot(l)->Some_0,
                            Location { coord: c, layer: Some(l) },
                        ) by {
                        if c == c0 && l == layer {
                            assert(listed@[j as int] == (entity, location));
                        } else {
                            assert(grid_cells(grid)[size.index_of(c)].slot(l) == grid_cells(
                                g0,
                            )[size.index_of(c)].slot(l));
                        }
                    }
                }
            }
            j = j + 1;
        }
        let r = SpatialTable { location_component: table, spatial_grid: grid };
        proof {
            assert forall|e: Entity| #[trigger]
                r.index().contains_key(e) && r.index()[e].layer is Some implies {
                &&& r.size().contains(r.index()[e].coord)
                &&& r.occupant(r.index()[e].coord, r.index()[e].layer->Some_0) == Some(e)
            } by {
                let k = choose|k: int| 0 <= k < listed@.len() && (#[trigger] listed@[k]).0 == e;
                let ka = choose|ka: int|
                    0 <= ka < entries@.len() && #[trigger] entries@[ka] == (e, m[e]);
            }
            assert forall|c: Coord, l: Layer|
                r.size().contains(c) && (#[trigger] r.occupant(c, l)) is Some implies {
                &&& r.index().contains_key(r.occupant(c, l)->Some_0)
                &&& r.index()[r.occupant(c, l)->Some_0] == (Location { coord: c, layer: Some(l) })
            } by {
                let k = choose|k: int|
                    0 <= k < listed@.len() && #[trigger] listed@[k] == (
                        grid_cells(grid)[s.size.index_of(c)].slot(l)->Some_0,
                        Location { coord: c, layer: Some(l) },
                    );
            }
        }
        r
    }

    /// Writes `value` into one slot of an in-bounds cell; nothing else changes.
    fn set_slot(&mut self, c: Coord, layer: Layer, value: Option<Entity>)
        requires
            old(self).shaped(),
            old(self).size().contains(c),
        ensures
            final(self).index() == old(self).index(),
            final(self).size() == old(self).size(),
            final(self).cells().len() == old(self).cells().len(),
            forall|d: Coord|
                old(self).size().contains(d) ==> #[trigger] final(self).cell(d) == if d == c {
                    old(self).cell(c).with_slot(layer, value)
                } else {
                    old(self).cell(d)
                },
    {
        let mut cell = *grid_get_checked(&self.spatial_grid, c);
        cell.set(layer, value);
        let ghost before = *self;
        grid_set(&mut self.spatial_grid, c, cell);
        proof {
            before.lemma_cell_after_set(*self, c, cell);
        }
    }
}

} // verus!
