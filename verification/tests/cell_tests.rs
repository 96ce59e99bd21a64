use tdlg::cell::Cell;
use tdlg::coordinate::Coordinate;
use tdlg::layer::LayerType;

#[test]
fn cell_it_changes_the_cell_type() {
    let mut cell = Cell {
        coordinate: Coordinate::splat(2),
        layers: vec![],
    };
    cell.set_cell_type(LayerType::RoomFloor);
    assert_eq!(cell.cell_type(), LayerType::RoomFloor);
}

#[test]
fn cell_it_updates_spawnable_walkable_for_room_floor() {
    let mut cell = Cell {
        coordinate: Coordinate::splat(2),
        layers: vec![],
    };
    cell.set_cell_type(LayerType::RoomFloor);
    assert!(cell.is_spawnable());
    assert!(cell.is_walkable());
}

#[test]
fn cell_it_updates_spawnable_walkable_for_floor() {
    let mut cell = Cell {
        coordinate: Coordinate::splat(2),
        layers: vec![],
    };
    cell.set_cell_type(LayerType::Floor);
    assert!(cell.is_spawnable());
    assert!(cell.is_walkable());
}

#[test]
fn cell_it_updates_spawnable_walkable_for_door() {
    let mut cell = Cell {
        coordinate: Coordinate::splat(2),
        layers: vec![],
    };
    cell.add_layer(LayerType::Door);
    assert!(!cell.is_spawnable());
    assert!(cell.is_walkable());
}

#[test]
fn cell_it_updates_cell_coordinates() {
    let cell = Cell {
        coordinate: Coordinate::splat(2),
        layers: vec![],
    };
    let new_cell = cell.translate(3, 3);

    assert_eq!(*new_cell.coordinate(), Coordinate::new(3, 3));
}

#[test]
fn cell_it_keeps_rest_of_cell() {
    let cell = Cell {
        coordinate: Coordinate::splat(2),
        layers: vec![LayerType::Floor],
    };
    let new_cell = cell.translate(3, 3);

    assert_eq!(new_cell.cell_type(), LayerType::Floor);
    assert!(new_cell.is_spawnable());
    assert!(new_cell.is_walkable());
}

#[test]
fn cell_it_returns_true_when_same_coordinates() {
    let cell = Cell::splat(0, LayerType::Empty);
    assert!(cell.is_at_location(0, 0));
}

#[test]
fn cell_it_returns_false_when_same_coordinates() {
    let cell = Cell::splat(0, LayerType::Empty);
    assert!(!cell.is_at_location(1, 0));
}

#[test]
fn cell_it_creates_cell_properly() {
    let cell = Cell::new(3, 3, LayerType::Floor);
    assert_eq!(*cell.coordinate(), Coordinate::new(3, 3));
    assert_eq!(cell.cell_type(), LayerType::Floor);
    assert!(cell.is_spawnable());
    assert!(cell.is_walkable());
}

#[test]
fn add_layer_type() {
    let mut cell = Cell {
        coordinate: Coordinate::from(2),
        layers: vec![],
    };
    cell.add_layer(LayerType::RoomFloor);
    assert_eq!(cell.visible_layer(), LayerType::RoomFloor);
}

#[test]
fn cell_reports_spawnable_walkable_after_add() {
    let mut cell = Cell {
        coordinate: Coordinate::from(2),
        layers: vec![],
    };
    cell.add_layer(LayerType::RoomFloor);
    assert!(cell.is_spawnable());
    assert!(cell.is_walkable());
}

#[test]
fn contains_door_with_door() {
    let cell = Cell {
        coordinate: Coordinate::from(2),
        layers: vec![LayerType::Door, LayerType::Floor],
    };
    assert!(cell.contains_door());
}

#[test]
fn contains_door_without_door() {
    let cell = Cell {
        coordinate: Coordinate::from(2),
        layers: vec![LayerType::RoomWall, LayerType::Floor],
    };
    assert!(!cell.contains_door());
}

#[test]
fn is_at_location_with_same_coords_is_true() {
    let cell = Cell::new(0, 0, LayerType::Empty);
    assert!(cell.is_at_location(0, 0));
}

#[test]
fn is_at_location_with_other_coords_is_false() {
    let cell = Cell::new(0, 0, LayerType::Empty);
    assert!(!cell.is_at_location(1, 0));
}

#[test]
fn new_creates_cell_properly() {
    let cell = Cell::new(3, 3, LayerType::Floor);
    assert_eq!(*cell.coordinate(), Coordinate::from(3));
    assert_eq!(cell.cell_type(), LayerType::Floor);
    assert!(cell.is_spawnable());
    assert!(cell.is_walkable());
}

#[test]
fn from_creates_cell_properly_with_layer() {
    let cell = Cell::new(3, 3, LayerType::Floor);
    assert_eq!(*cell.coordinate(), Coordinate::from((3, 3)));
    assert_eq!(cell.cell_type(), LayerType::Floor);
    assert!(cell.is_spawnable());
    assert!(cell.is_walkable());
}

#[test]
fn coordinate_it_creates_coordinate_with_same_values() {
    let coordinate = Coordinate::splat(2);
    assert_eq!(coordinate.x, 2);
    assert_eq!(coordinate.y, 2);
}

#[test]
fn coordinate_it_creates_coordinate_properly() {
    let coordinate = Coordinate::new(2, 4);
    assert_eq!(coordinate.x, 2);
    assert_eq!(coordinate.y, 4)
}

#[test]
fn coordinate_distance_is_manhattan() {
    let a = Coordinate::new(0, 0);
    let b = Coordinate::new(3, 4);
    assert_eq!(a.distance(&b), 7);
    assert_eq!(b.distance(&a), 7);
    assert_eq!(Coordinate::new(-2, 5).distance(&Coordinate::new(1, 1)), 7);
}

#[test]
fn every_spawnable_layer_is_walkable() {
    let all = [
        LayerType::CommonItem,
        LayerType::Door,
        LayerType::Empty,
        LayerType::Entrance,
        LayerType::Exit,
        LayerType::ExoticItem,
        LayerType::Floor,
        LayerType::Note,
        LayerType::OuterWall,
        LayerType::Path,
        LayerType::RareItem,
        LayerType::RoomFloor,
        LayerType::RoomWall,
        LayerType::Rubble,
        LayerType::Structure,
        LayerType::Table,
        LayerType::UncommonItem,
    ];
    for layer in all {
        if layer.is_spawnable() {
            assert!(layer.is_walkable());
        }
    }
}

#[test]
fn every_spawnable_cell_is_walkable() {
    let mut cell = Cell::new(1, 1, LayerType::RoomFloor);
    cell.add_layer(LayerType::Floor);
    assert!(cell.is_spawnable());
    assert!(cell.is_walkable());
}

#[test]
fn codec_round_trips_every_layer() {
    let all = [
        LayerType::CommonItem,
        LayerType::Door,
        LayerType::Empty,
        LayerType::Entrance,
        LayerType::Exit,
        LayerType::ExoticItem,
        LayerType::Floor,
        LayerType::Note,
        LayerType::OuterWall,
        LayerType::Path,
        LayerType::RareItem,
        LayerType::RoomFloor,
        LayerType::RoomWall,
        LayerType::Rubble,
        LayerType::Structure,
        LayerType::Table,
        LayerType::UncommonItem,
    ];
    for layer in all {
        let c: char = char::from(layer);
        assert_eq!(LayerType::from(c), layer);
    }
}

#[test]
fn unmapped_character_decodes_to_empty() {
    assert_eq!(LayerType::from('Z'), LayerType::Empty);
    assert_eq!(LayerType::from('!'), LayerType::Empty);
}

#[test]
fn template_characters_decode_to_room_layers() {
    assert_eq!(LayerType::from('w'), LayerType::RoomWall);
    assert_eq!(LayerType::from('f'), LayerType::RoomFloor);
    assert_eq!(LayerType::from('d'), LayerType::Door);
    assert_eq!(LayerType::from('&'), LayerType::Rubble);
}

#[test]
fn bury_layer_goes_to_bottom() {
    let mut cell = Cell::new(1, 1, LayerType::Note);
    cell.bury_layer(&LayerType::RoomFloor);
    assert_eq!(cell.cell_type(), LayerType::RoomFloor);
    assert_eq!(cell.visible_layer(), LayerType::Note);
    assert_eq!(cell.layers().len(), 2);
}

#[test]
fn layer_underground_reporting() {
    let mut cell = Cell::new(1, 1, LayerType::Note);
    cell.add_layer(LayerType::RoomFloor);
    assert_eq!(cell.is_layer_underground(&LayerType::Note), Some(true));
    assert_eq!(cell.is_layer_underground(&LayerType::RoomFloor), Some(false));
    assert_eq!(cell.is_layer_underground(&LayerType::Door), None);
}

#[test]
fn any_covering_layer_counts_as_burial() {
    // the covering floor here is a repeat occurrence, not a first one;
    // it still buries the note beneath it
    let mut cell = Cell::new(1, 1, LayerType::Floor);
    cell.add_layer(LayerType::Note);
    cell.add_layer(LayerType::Floor);
    assert_eq!(cell.is_layer_underground(&LayerType::Note), Some(true));
    assert_eq!(cell.is_layer_underground(&LayerType::Floor), Some(false));
}

#[test]
fn uncovered_layer_is_not_buried() {
    let mut cell = Cell::new(1, 1, LayerType::Floor);
    cell.add_layer(LayerType::Note);
    assert_eq!(cell.is_layer_underground(&LayerType::Note), Some(false));
}

#[test]
fn wall_brings_its_floor_along() {
    let mut cell = Cell {
        coordinate: Coordinate::splat(0),
        layers: vec![],
    };
    cell.add_layer(LayerType::RoomWall);
    assert_eq!(cell.layers().len(), 2);
    assert_eq!(cell.cell_type(), LayerType::RoomFloor);
    assert_eq!(cell.visible_layer(), LayerType::RoomWall);
}

#[test]
fn obstruction_looks_through_the_whole_stack() {
    let mut buried = Cell::new(0, 0, LayerType::OuterWall);
    buried.add_layer(LayerType::Floor);
    assert!(buried.is_obstructed());
    let empty = Cell::new(0, 0, LayerType::Empty);
    assert!(empty.is_obstructed());
    let open = Cell::new(0, 0, LayerType::Floor);
    assert!(!open.is_obstructed());
}

#[test]
fn pushing_empty_is_a_no_op() {
    let mut cell = Cell::new(0, 0, LayerType::Floor);
    cell.add_layer(LayerType::Empty);
    cell.bury_layer(&LayerType::Empty);
    assert_eq!(cell.layers().len(), 1);
}

#[test]
fn it_changes_the_cell_type() {
    let mut cell = Cell {
        coordinate: Coordinate::splat(2),
        layers: vec![],
    };
    cell.set_cell_type(LayerType::RoomFloor);
    assert_eq!(cell.cell_type(), LayerType::RoomFloor);
}

#[test]
fn it_updates_spawnable_walkable_for_room_floor() {
    let mut cell = Cell {
        coordinate: Coordinate::splat(2),
        layers: vec![],
    };
    cell.set_cell_type(LayerType::RoomFloor);
    assert!(cell.is_spawnable());
    assert!(cell.is_walkable());
}

#[test]
fn it_updates_spawnable_walkable_for_floor() {
    let mut cell = Cell {
        coordinate: Coordinate::splat(2),
        layers: vec![],
    };
    cell.set_cell_type(LayerType::Floor);
    assert!(cell.is_spawnable());
    assert!(cell.is_walkable());
}

#[test]
fn it_updates_spawnable_walkable_for_door() {
    let mut cell = Cell {
        coordinate: Coordinate::splat(2),
        layers: vec![],
    };
    cell.set_cell_type(LayerType::Door);
    assert!(!cell.is_spawnable());
    assert!(cell.is_walkable());
}

#[test]
fn it_updates_cell_coordinates() {
    let cell = Cell {
        coordinate: Coordinate::splat(2),
        layers: vec![],
    };
    let new_cell = cell.translate(3, 3);

    assert_eq!(*new_cell.coordinate(), Coordinate::new(3, 3));
}

#[test]
fn it_keeps_rest_of_cell() {
    let cell = Cell {
        coordinate: Coordinate::splat(2),
        layers: vec![LayerType::Floor],
    };
    let new_cell = cell.translate(3, 3);

    assert_eq!(new_cell.cell_type(), LayerType::Floor);
    assert!(new_cell.is_spawnable());
    assert!(new_cell.is_walkable());
}

#[test]
fn it_returns_true_when_same_coordinates() {
    let cell = Cell::splat(0, LayerType::Empty);
    assert!(cell.is_at_location(0, 0));
}

#[test]
fn it_returns_false_when_same_coordinates() {
    let cell = Cell::splat(0, LayerType::Empty);
    assert!(!cell.is_at_location(1, 0));
}

#[test]
fn it_creates_cell_properly() {
    let cell = Cell::new(3, 3, LayerType::Floor);
    assert_eq!(*cell.coordinate(), Coordinate::new(3, 3));
    assert_eq!(cell.cell_type(), LayerType::Floor);
    assert!(cell.is_spawnable());
    assert!(cell.is_walkable());
}

#[test]
fn it_creates_coordinate_with_same_values() {
    let coordinate = Coordinate::splat(2);
    assert_eq!(coordinate.x, 2);
    assert_eq!(coordinate.y, 2);
}

#[test]
fn it_creates_coordinate_properly() {
    let coordinate = Coordinate::new(2, 4);
    assert_eq!(coordinate.x, 2);
    assert_eq!(coordinate.y, 4)
}
