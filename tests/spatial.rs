use entity_table::EntityAllocator;
use spatial_table::{
    Coord, EntityHasNoCoord, Layer, Layers, Location, Size, SpatialSerialize, SpatialTable,
    UpdateError, UpdateLayerError,
};

#[test]
fn test() {
    let mut entity_allocator = EntityAllocator::default();
    let mut spatial_table = SpatialTable::new(Size::new(10, 10));
    let entity_a = entity_allocator.alloc();
    let entity_b = entity_allocator.alloc();
    let entity_c = entity_allocator.alloc();

    assert_eq!(spatial_table.location_of(entity_a), None);

    // try to place a feature out of bounds - should fail
    assert_eq!(
        spatial_table.update(
            entity_a,
            Location {
                coord: Coord::new(-1, 10),
                layer: Some(Layer::Feature),
            },
        ),
        Err(UpdateError::DestinationOutOfBounds),
    );

    // entity should not have been added
    assert_eq!(spatial_table.location_of(entity_a), None);

    // try to place a feature at valid coord
    assert_eq!(
        spatial_table.update(
            entity_a,
            Location {
                coord: Coord::new(4, 2),
                layer: Some(Layer::Feature),
            },
        ),
        Ok(()),
    );
    assert_eq!(
        spatial_table.location_of(entity_a).cloned(),
        Some(Location {
            coord: Coord::new(4, 2),
            layer: Some(Layer::Feature)
        })
    );

    // move feature to new coord
    assert_eq!(
        spatial_table.update_coord(entity_a, Coord::new(6, 7)),
        Ok(()),
    );
    assert_eq!(
        spatial_table.location_of(entity_a).cloned(),
        Some(Location {
            coord: Coord::new(6, 7),
            layer: Some(Layer::Feature)
        })
    );

    assert_eq!(spatial_table.location_of(entity_b), None);

    // try to add a new feature on top - should fail
    assert_eq!(
        spatial_table.update(
            entity_b,
            Location {
                coord: Coord::new(6, 7),
                layer: Some(Layer::Feature),
            },
        ),
        Err(UpdateError::OccupiedBy(entity_a)),
    );

    assert_eq!(spatial_table.location_of(entity_b), None);

    // add new feature in different coord
    assert_eq!(
        spatial_table.update(
            entity_b,
            Location {
                coord: Coord::new(6, 8),
                layer: Some(Layer::Feature),
            },
        ),
        Ok(()),
    );

    // try to move it to coord with existing feature
    assert_eq!(
        spatial_table.update_coord(entity_b, Coord::new(6, 7)),
        Err(UpdateError::OccupiedBy(entity_a)),
    );

    assert_eq!(spatial_table.coord_of(entity_b), Some(Coord::new(6, 8)));

    assert_eq!(spatial_table.location_of(entity_c), None);

    // add a character on top of an entity_a
    assert_eq!(
        spatial_table.update(
            entity_c,
            Location {
                coord: Coord::new(6, 7),
                layer: Some(Layer::Character),
            },
        ),
        Ok(()),
    );
    assert_eq!(spatial_table.coord_of(entity_c), Some(Coord::new(6, 7)));

    assert_eq!(
        *spatial_table.layers_at_checked(Coord::new(6, 7)),
        Layers {
            floor: None,
            feature: Some(entity_a),
            character: Some(entity_c),
        },
    );
    assert_eq!(
        *spatial_table.layers_at_checked(Coord::new(6, 8)),
        Layers {
            floor: None,
            feature: Some(entity_b),
            character: None,
        },
    );

    spatial_table
        .update_layer(entity_a, Layer::Feature)
        .unwrap();
    assert_eq!(
        *spatial_table.layers_at_checked(Coord::new(6, 7)),
        Layers {
            floor: None,
            feature: Some(entity_a),
            character: Some(entity_c),
        },
    );

    assert_eq!(
        spatial_table.update_layer(entity_a, Layer::Character),
        Err(UpdateLayerError::OccupiedBy(entity_c))
    );

    spatial_table
        .update_layer(entity_b, Layer::Character)
        .unwrap();
    assert_eq!(
        *spatial_table.layers_at_checked(Coord::new(6, 8)),
        Layers {
            floor: None,
            feature: None,
            character: Some(entity_b),
        },
    );
    assert_eq!(spatial_table.layer_of(entity_b), Some(Layer::Character));
    spatial_table
        .update_layer(entity_b, Layer::Feature)
        .unwrap();
    assert_eq!(spatial_table.layer_of(entity_b), Some(Layer::Feature));

    spatial_table.remove(entity_a);
    assert_eq!(
        *spatial_table.layers_at_checked(Coord::new(6, 7)),
        Layers {
            floor: None,
            feature: None,
            character: Some(entity_c),
        },
    );
    assert_eq!(
        spatial_table.update_coord(entity_b, Coord::new(6, 7)),
        Ok(()),
    );
    assert_eq!(
        *spatial_table.layers_at_checked(Coord::new(6, 7)),
        Layers {
            floor: None,
            feature: Some(entity_b),
            character: Some(entity_c),
        },
    );
    assert_eq!(
        *spatial_table.layers_at_checked(Coord::new(6, 8)),
        Layers {
            floor: None,
            feature: None,
            character: None,
        },
    );

    spatial_table.clear_layer(entity_b).unwrap();
    assert_eq!(
        *spatial_table.layers_at_checked(Coord::new(6, 7)),
        Layers {
            floor: None,
            feature: None,
            character: Some(entity_c),
        },
    );
    assert_eq!(spatial_table.coord_of(entity_b), Some(Coord::new(6, 7)));
    assert_eq!(spatial_table.layer_of(entity_b), None);
}

fn at(x: i32, y: i32, layer: Layer) -> Location {
    Location::from((Coord::new(x, y), layer))
}

fn snapshot(table: &SpatialTable) -> Vec<(Coord, Layers)> {
    table.enumerate()
}

/// Every layered location names a slot holding its entity, and every
/// occupied slot is named by its occupant's location.
fn consistent(table: &SpatialTable) -> bool {
    let serialized = table.to_serialize();
    for (entity, location) in serialized.entries.iter() {
        if let Some(layer) = location.layer {
            let cell = match table.layers_at(location.coord) {
                Some(cell) => *cell,
                None => return false,
            };
            if cell.select(layer) != Some(*entity) {
                return false;
            }
        }
    }
    for (coord, cell) in table.enumerate() {
        for layer in [Layer::Floor, Layer::Feature, Layer::Character] {
            if let Some(entity) = cell.select(layer) {
                if table.location_of(entity).cloned() != Some(at(coord.x, coord.y, layer)) {
                    return false;
                }
            }
        }
    }
    true
}

#[test]
fn consistency_holds_after_each_operation() {
    let mut alloc = EntityAllocator::default();
    let mut table = SpatialTable::new(Size::new(4, 3));
    let a = alloc.alloc();
    let b = alloc.alloc();
    let c = alloc.alloc();
    assert!(consistent(&table));
    assert_eq!(table.update(a, at(1, 1, Layer::Floor)), Ok(()));
    assert!(consistent(&table));
    assert_eq!(table.update(b, at(1, 1, Layer::Character)), Ok(()));
    assert!(consistent(&table));
    assert_eq!(table.update_coord(c, Coord::new(3, 2)), Ok(()));
    assert!(consistent(&table));
    assert_eq!(table.update_layer(c, Layer::Floor), Ok(()));
    assert!(consistent(&table));
    assert_eq!(table.update_coord(a, Coord::new(0, 0)), Ok(()));
    assert!(consistent(&table));
    assert_eq!(table.update_layer(b, Layer::Feature), Ok(()));
    assert!(consistent(&table));
    assert_eq!(table.clear_layer(c), Ok(()));
    assert!(consistent(&table));
    table.remove(b);
    assert!(consistent(&table));
    assert_eq!(table.update(c, at(3, 0, Layer::Feature)), Ok(()));
    assert!(consistent(&table));
}

#[test]
fn repeated_update_coord_is_a_no_op() {
    let mut alloc = EntityAllocator::default();
    let mut table = SpatialTable::new(Size::new(5, 5));
    let a = alloc.alloc();
    assert_eq!(table.update(a, at(0, 0, Layer::Feature)), Ok(()));
    assert_eq!(table.update_coord(a, Coord::new(2, 3)), Ok(()));
    let before = snapshot(&table);
    assert_eq!(table.update_coord(a, Coord::new(2, 3)), Ok(()));
    assert_eq!(snapshot(&table), before);
    assert_eq!(table.location_of(a).cloned(), Some(at(2, 3, Layer::Feature)));
}

#[test]
fn repeated_update_layer_is_a_no_op() {
    let mut alloc = EntityAllocator::default();
    let mut table = SpatialTable::new(Size::new(5, 5));
    let a = alloc.alloc();
    assert_eq!(table.update(a, at(4, 4, Layer::Floor)), Ok(()));
    assert_eq!(table.update_layer(a, Layer::Character), Ok(()));
    let before = snapshot(&table);
    assert_eq!(table.update_layer(a, Layer::Character), Ok(()));
    assert_eq!(snapshot(&table), before);
    assert_eq!(table.layer_of(a), Some(Layer::Character));
}

#[test]
fn failed_calls_change_nothing() {
    let mut alloc = EntityAllocator::default();
    let mut table = SpatialTable::new(Size::new(3, 3));
    let a = alloc.alloc();
    let b = alloc.alloc();
    assert_eq!(table.update(a, at(1, 1, Layer::Feature)), Ok(()));
    assert_eq!(table.update(b, at(2, 2, Layer::Feature)), Ok(()));
    let cells = snapshot(&table);
    let a_at = table.location_of(a).cloned();
    let b_at = table.location_of(b).cloned();
    assert_eq!(table.update(b, at(1, 1, Layer::Feature)), Err(UpdateError::OccupiedBy(a)));
    assert_eq!(table.update(b, at(3, 0, Layer::Feature)), Err(UpdateError::DestinationOutOfBounds));
    assert_eq!(table.update_coord(b, Coord::new(1, 1)), Err(UpdateError::OccupiedBy(a)));
    assert_eq!(table.update_coord(b, Coord::new(0, -1)), Err(UpdateError::DestinationOutOfBounds));
    assert_eq!(table.update_layer(a, Layer::Feature), Ok(()));
    assert_eq!(table.update(b, at(2, 2, Layer::Feature)), Ok(()));
    assert_eq!(snapshot(&table), cells);
    assert_eq!(table.location_of(a).cloned(), a_at);
    assert_eq!(table.location_of(b).cloned(), b_at);
}

#[test]
fn occupied_layer_refuses_a_layer_change() {
    let mut alloc = EntityAllocator::default();
    let mut table = SpatialTable::new(Size::new(3, 3));
    let a = alloc.alloc();
    let b = alloc.alloc();
    assert_eq!(table.update(a, at(0, 1, Layer::Feature)), Ok(()));
    assert_eq!(table.update(b, at(0, 1, Layer::Floor)), Ok(()));
    let cells = snapshot(&table);
    let err = table.update_layer(a, Layer::Floor);
    assert_eq!(err, Err(UpdateLayerError::OccupiedBy(b)));
    assert_eq!(err.unwrap_err().unwrap_occupied_by(), b);
    assert_eq!(snapshot(&table), cells);
}

#[test]
fn round_trip_rebuilds_the_grid() {
    let mut alloc = EntityAllocator::default();
    let mut table = SpatialTable::new(Size::new(6, 4));
    let a = alloc.alloc();
    let b = alloc.alloc();
    let c = alloc.alloc();
    let d = alloc.alloc();
    assert_eq!(table.update(a, at(5, 3, Layer::Feature)), Ok(()));
    assert_eq!(table.update(b, at(5, 3, Layer::Character)), Ok(()));
    assert_eq!(table.update(c, at(0, 0, Layer::Floor)), Ok(()));
    assert_eq!(table.update_coord(d, Coord::new(-3, 9)), Ok(()));
    let rebuilt = SpatialTable::from_serialize(table.to_serialize());
    assert_eq!(rebuilt.grid_size(), Size::new(6, 4));
    assert_eq!(snapshot(&rebuilt), snapshot(&table));
    for e in [a, b, c, d] {
        assert_eq!(rebuilt.location_of(e), table.location_of(e));
    }
    assert_eq!(rebuilt.coord_of(d), Some(Coord::new(-3, 9)));
    assert_eq!(rebuilt.layer_of(d), None);
}

#[test]
fn out_of_bounds_placement_leaves_entity_untracked() {
    let mut alloc = EntityAllocator::default();
    let mut table = SpatialTable::new(Size::new(10, 10));
    let a = alloc.alloc();
    let err = table.update(a, at(-1, 10, Layer::Feature));
    assert_eq!(err, Err(UpdateError::DestinationOutOfBounds));
    assert_eq!(table.location_of(a), None);
    assert_eq!(table.coord_of(a), None);
}

#[test]
fn remove_frees_only_the_removed_slot() {
    let mut alloc = EntityAllocator::default();
    let mut table = SpatialTable::new(Size::new(10, 10));
    let a = alloc.alloc();
    let c = alloc.alloc();
    assert_eq!(table.update(a, at(6, 7, Layer::Feature)), Ok(()));
    assert_eq!(table.update(c, at(6, 7, Layer::Character)), Ok(()));
    table.remove(a);
    assert_eq!(table.location_of(a), None);
    assert_eq!(
        table.layers_at(Coord::new(6, 7)).cloned(),
        Some(Layers { floor: None, feature: None, character: Some(c) }),
    );
    assert_eq!(table.location_of(c).cloned(), Some(at(6, 7, Layer::Character)));
    table.remove(a);
    assert_eq!(table.location_of(c).cloned(), Some(at(6, 7, Layer::Character)));
}

#[test]
fn clear_layer_keeps_the_coordinate() {
    let mut alloc = EntityAllocator::default();
    let mut table = SpatialTable::new(Size::new(10, 10));
    let b = alloc.alloc();
    assert_eq!(table.update(b, at(6, 7, Layer::Feature)), Ok(()));
    assert_eq!(table.clear_layer(b), Ok(()));
    assert_eq!(
        table.location_of(b).cloned(),
        Some(Location { coord: Coord::new(6, 7), layer: None }),
    );
    assert_eq!(table.layers_at_checked(Coord::new(6, 7)).feature, None);
    assert_eq!(table.coord_of(b), Some(Coord::new(6, 7)));
    assert_eq!(table.clear_layer(b), Ok(()));
}

#[test]
fn layer_operations_on_untracked_entities_fail() {
    let mut alloc = EntityAllocator::default();
    let mut table = SpatialTable::new(Size::new(2, 2));
    let a = alloc.alloc();
    assert_eq!(table.clear_layer(a), Err(EntityHasNoCoord));
    assert_eq!(table.update_layer(a, Layer::Floor), Err(UpdateLayerError::EntityHasNoCoord));
    assert_eq!(table.location_of(a), None);
}

#[test]
fn placing_again_at_the_same_location_succeeds() {
    let mut alloc = EntityAllocator::default();
    let mut table = SpatialTable::new(Size::new(2, 2));
    let a = alloc.alloc();
    assert_eq!(table.update(a, at(1, 0, Layer::Floor)), Ok(()));
    assert_eq!(table.update(a, at(1, 0, Layer::Floor)), Ok(()));
    assert_eq!(table.layers_at_checked(Coord::new(1, 0)).floor, Some(a));
}

#[test]
fn untracked_entity_gets_coordinate_without_layer() {
    let mut alloc = EntityAllocator::default();
    let mut table = SpatialTable::new(Size::new(2, 2));
    let a = alloc.alloc();
    assert_eq!(table.update_coord(a, Coord::new(7, -2)), Ok(()));
    assert_eq!(
        table.location_of(a).cloned(),
        Some(Location { coord: Coord::new(7, -2), layer: None }),
    );
    assert_eq!(table.update_coord(a, Coord::new(1, 1)), Ok(()));
    assert_eq!(table.update_layer(a, Layer::Feature), Ok(()));
    assert_eq!(table.layers_at_checked(Coord::new(1, 1)).feature, Some(a));
}

#[test]
fn enumerate_is_row_major() {
    let mut alloc = EntityAllocator::default();
    let mut table = SpatialTable::new(Size::new(3, 2));
    let a = alloc.alloc();
    assert_eq!(table.update(a, at(2, 0, Layer::Floor)), Ok(()));
    let cells = table.enumerate();
    let coords: Vec<Coord> = cells.iter().map(|(c, _)| *c).collect();
    assert_eq!(
        coords,
        vec![
            Coord::new(0, 0),
            Coord::new(1, 0),
            Coord::new(2, 0),
            Coord::new(0, 1),
            Coord::new(1, 1),
            Coord::new(2, 1),
        ],
    );
    assert_eq!(cells[2].1.floor, Some(a));
    assert_eq!(cells[1].1, Layers::empty());
}

#[test]
fn clear_forgets_everything() {
    let mut alloc = EntityAllocator::default();
    let mut table = SpatialTable::new(Size::new(3, 3));
    let a = alloc.alloc();
    let b = alloc.alloc();
    assert_eq!(table.update(a, at(0, 0, Layer::Floor)), Ok(()));
    assert_eq!(table.update(b, at(2, 2, Layer::Character)), Ok(()));
    table.clear();
    assert_eq!(table.location_of(a), None);
    assert_eq!(table.location_of(b), None);
    assert_eq!(table.grid_size(), Size::new(3, 3));
    for (_, cell) in table.enumerate() {
        assert_eq!(cell, Layers::default());
    }
    assert_eq!(table.update(b, at(0, 0, Layer::Floor)), Ok(()));
}

#[test]
fn layers_at_outside_the_grid_is_none() {
    let table = SpatialTable::new(Size::new(3, 2));
    assert!(table.layers_at(Coord::new(3, 0)).is_none());
    assert!(table.layers_at(Coord::new(0, 2)).is_none());
    assert!(table.layers_at(Coord::new(-1, 0)).is_none());
    assert_eq!(table.layers_at(Coord::new(2, 1)).cloned(), Some(Layers::empty()));
    assert_eq!(table.grid_size().width(), 3);
    assert_eq!(table.grid_size().height(), 2);
}

#[test]
fn layer_record_selects_and_sets_each_slot() {
    let mut alloc = EntityAllocator::default();
    let a = alloc.alloc();
    let mut cell = Layers::empty();
    cell.set(Layer::Character, Some(a));
    assert_eq!(cell.select(Layer::Character), Some(a));
    assert_eq!(cell.select(Layer::Floor), None);
    assert_eq!(cell, Layers { floor: None, feature: None, character: Some(a) });
    assert_eq!(
        Location::from((Coord::new(1, 2), Layer::Floor)),
        Location { coord: Coord::new(1, 2), layer: Some(Layer::Floor) },
    );
}

#[test]
fn update_error_exposes_its_occupant() {
    let mut alloc = EntityAllocator::default();
    let a = alloc.alloc();
    assert_eq!(UpdateError::OccupiedBy(a).unwrap_occupied_by(), a);
    assert_eq!(UpdateLayerError::OccupiedBy(a).unwrap_occupied_by(), a);
}

#[test]
fn rebuild_from_written_entries_claims_each_slot() {
    let mut alloc = EntityAllocator::default();
    let a = alloc.alloc();
    let b = alloc.alloc();
    let c = alloc.alloc();
    let snapshot = SpatialSerialize {
        entries: vec![
            (a, at(1, 0, Layer::Feature)),
            (b, Location { coord: Coord::new(-4, 4), layer: None }),
            (c, at(1, 0, Layer::Floor)),
        ],
        size: Size::new(2, 1),
    };
    let table = SpatialTable::from_serialize(snapshot);
    assert_eq!(table.grid_size(), Size::new(2, 1));
    assert_eq!(
        *table.layers_at_checked(Coord::new(1, 0)),
        Layers { floor: Some(c), feature: Some(a), character: None },
    );
    assert_eq!(*table.layers_at_checked(Coord::new(0, 0)), Layers::empty());
    assert_eq!(table.coord_of(b), Some(Coord::new(-4, 4)));
    assert_eq!(table.to_serialize().entries.len(), 3);
}
