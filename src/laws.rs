use vstd::prelude::*;
use crate::geometry::{Coord, lemma_coord_at};
use crate::layers::{Layer, Location, lemma_with_slot};
use crate::outside::entity_slot;
use crate::table::{
    SpatialSerialize, SpatialTable, UpdateError, UpdateLayerError, claims_fit, distinct_entities,
    lists,
};
use entity_table::Entity;

verus! {

broadcast use lemma_with_slot;

/// Two consistent tables of one size that agree on every location have the
/// same occupancy grid: the grid is determined by the location index.
pub proof fn lemma_grid_follows_index(a: SpatialTable, b: SpatialTable)
    requires
        a.wf(),
        b.wf(),
        a.size() == b.size(),
        a.index() == b.index(),
    ensures
        a.cells() == b.cells(),
{
    let size = a.size();
    assert forall|i: int| 0 <= i < a.cells().len() implies a.cells()[i] == b.cells()[i] by {
        lemma_coord_at(size, i);
        let c = size.coord_at(i);
        assert forall|l: Layer| a.occupant(c, l) == b.occupant(c, l) by {
            if a.occupant(c, l) is Some {
                let e = a.occupant(c, l)->Some_0;
                assert(b.index()[e] == (Location { coord: c, layer: Some(l) }));
            }
            if b.occupant(c, l) is Some {
                let e = b.occupant(c, l)->Some_0;
                assert(a.index()[e] == (Location { coord: c, layer: Some(l) }));
            }
        }
        assert(a.occupant(c, Layer::Floor) == b.occupant(c, Layer::Floor));
        assert(a.occupant(c, Layer::Feature) == b.occupant(c, Layer::Feature));
        assert(a.occupant(c, Layer::Character) == b.occupant(c, Layer::Character));
    }
    assert(a.cells() =~= b.cells());
}

/// Persisting a consistent table and rebuilding it from the persisted form
/// gives back the same location index and the same occupancy grid.
pub proof fn lemma_round_trip(t: SpatialTable, s: SpatialSerialize, r: SpatialTable)
    requires
        t.wf(),
        s.size == t.size(),
        lists(s.entries@, t.index()),
        r.wf(),
        r.size() == s.size,
        r.rebuilt_from(s.entries@),
    ensures
        claims_fit(s.size, s.entries@),
        r.index() == t.index(),
        r.cells() == t.cells(),
{
    let e = s.entries@;
    assert(distinct_entities(e)) by {
        assert forall|i: int, j: int|
            0 <= i < e.len() && 0 <= j < e.len() && i != j implies (#[trigger] e[i]).0 != (
            #[trigger] e[j]).0 && entity_slot(e[i].0) != entity_slot(e[j].0) by {
            if i < j {
                assert(e[i].0 != e[j].0);
            } else {
                assert(e[j].0 != e[i].0);
            }
            assert(t.index().contains_key(e[i].0));
            assert(t.index().contains_key(e[j].0));
        }
    }
    assert forall|i: int| 0 <= i < e.len() && (#[trigger] e[i]).1.layer is Some implies s.size.contains(
        e[i].1.coord,
    ) by {
        assert(t.index().contains_key(e[i].0));
    }
    assert forall|i: int, j: int|
        0 <= i < e.len() && 0 <= j < e.len() && (#[trigger] e[i]).0 != (#[trigger] e[j]).0
            && e[i].1.layer is Some implies e[i].1 != e[j].1 by {
        assert(t.index().contains_key(e[i].0));
        assert(t.index().contains_key(e[j].0));
        assert(t.occupant(e[i].1.coord, e[i].1.layer->Some_0) == Some(e[i].0));
    }
    assert forall|k: Entity| r.index().contains_key(k) <==> t.index().contains_key(k) by {
        if t.index().contains_key(k) {
            let i = choose|i: int| 0 <= i < e.len() && (#[trigger] e[i]).0 == k;
            assert(r.index().contains_key(e[i].0));
        }
        if r.index().contains_key(k) {
            let i = choose|i: int| 0 <= i < e.len() && #[trigger] e[i] == (k, r.index()[k]);
            assert(t.index().contains_key(e[i].0));
        }
    }
    assert forall|k: Entity| #[trigger] r.index().contains_key(k) implies r.index()[k]
        == t.index()[k] by {
        let i = choose|i: int| 0 <= i < e.len() && #[trigger] e[i] == (k, r.index()[k]);
    }
    assert(r.index() =~= t.index());
    lemma_grid_follows_index(r, t);
}

/// Moving an entity to a coordinate a second time, right after a successful
/// move there, succeeds and changes nothing.
pub proof fn lemma_update_coord_idempotent(
    t: SpatialTable,
    e: Entity,
    c: Coord,
    moved: SpatialTable,
)
    requires
        t.wf(),
        t.update_coord_outcome(e, c) is Ok,
        moved.index() == t.index().insert(e, t.moved_location(e, c)),
    ensures
        moved.update_coord_outcome(e, c) == Ok::<(), UpdateError>(()),
        moved.index().contains_key(e) && moved.index()[e].coord == c,
{
}

/// Putting an entity on a layer a second time, right after a successful
/// change to it, succeeds and changes nothing.
pub proof fn lemma_update_layer_idempotent(
    t: SpatialTable,
    e: Entity,
    layer: Layer,
    moved: SpatialTable,
)
    requires
        t.wf(),
        t.update_layer_outcome(e, layer) is Ok,
        moved.index() == t.index().insert(e, t.relayered_location(e, layer)),
    ensures
        moved.update_layer_outcome(e, layer) == Ok::<(), UpdateLayerError>(()),
        moved.index().contains_key(e) && moved.index()[e].layer == Some(layer),
{
}

} // verus!
