use vstd::prelude::*;
use crate::geometry::Coord;
use entity_table::Entity;

verus! {

/// Relies on entity_table's `Entity`: an opaque, copyable handle.
#[verifier::external_type_specification]
#[verifier::external_body]
pub struct ExEntity(entity_table::Entity);

/// The closed set of mutually exclusive occupancy classes of a cell.
#[derive(Clone, Copy, Debug, PartialEq, Eq, Hash, Structural)]
pub enum Layer {
    Floor,
    Feature,
    Character,
}

/// What occupies one cell: one optional entity per layer.
#[derive(Clone, Copy, Debug, PartialEq, Eq)]
pub struct Layers {
    pub floor: Option<Entity>,
    pub feature: Option<Entity>,
    pub character: Option<Entity>,
}

impl Layers {
    /// The occupant of the slot that `layer` selects.
    pub open spec fn slot(self, layer: Layer) -> Option<Entity> {
        match layer {
            Layer::Floor => self.floor,
            Layer::Feature => self.feature,
            Layer::Character => self.character,
        }
    }

    /// This record with the slot of `layer` replaced by `value`.
    pub open spec fn with_slot(self, layer: Layer, value: Option<Entity>) -> Layers {
        match layer {
            Layer::Floor => Layers { floor: value, ..self },
            Layer::Feature => Layers { feature: value, ..self },
            Layer::Character => Layers { character: value, ..self },
        }
    }

    pub open spec fn vacant() -> Layers {
        Layers { floor: None, feature: None, character: None }
    }

    pub fn empty() -> (r: Layers)
        ensures
            r == Layers::vacant(),
            forall|l: Layer| (#[trigger] r.slot(l)).is_none(),
    {
        Layers { floor: None, feature: None, character: None }
    }

    pub fn select(&self, layer: Layer) -> (r: Option<Entity>)
        ensures
            r == self.slot(layer),
    {
        match layer {
            Layer::Floor => self.floor,
            Layer::Feature => self.feature,
            Layer::Character => self.character,
        }
    }

    pub fn set(&mut self, layer: Layer, value: Option<Entity>)
        ensures
            *final(self) == old(self).with_slot(layer, value),
    {
        match layer {
            Layer::Floor => self.floor = value,
            Layer::Feature => self.feature = value,
            Layer::Character => self.character = value,
        }
    }
}

pub broadcast proof fn lemma_with_slot(r: Layers, layer: Layer, value: Option<Entity>, other: Layer)
    ensures
        #[trigger] r.with_slot(layer, value).slot(other) == if other == layer {
            value
        } else {
            r.slot(other)
        },
{
}

impl Default for Layers {
    fn default() -> (r: Layers)
        ensures
            r == Layers::vacant(),
    {
        Layers::empty()
    }
}

/// Where a tracked entity is: a coordinate, and the layer it occupies there,
/// if any.
#[derive(Clone, Copy, Debug, PartialEq, Eq, Structural)]
pub struct Location {
    pub coord: Coord,
    pub layer: Option<Layer>,
}

impl From<(Coord, Layer)> for Location {
    fn from(p: (Coord, Layer)) -> (r: Location)
        ensures
            r == (Location { coord: p.0, layer: Some(p.1) }),
    {
        Location { coord: p.0, layer: Some(p.1) }
    }
}

impl vstd::std_specs::convert::FromSpecImpl<(Coord, Layer)> for Location {
    open spec fn obeys_from_spec() -> bool {
        true
    }

    open spec fn from_spec(p: (Coord, Layer)) -> Location {
        Location { coord: p.0, layer: Some(p.1) }
    }
}

} // verus!
