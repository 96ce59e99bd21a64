use tdlg::cell::Cell;
use tdlg::layer::LayerType;
use tdlg::room::Room;

#[test]
fn room_translate_moves_room() {
    let room = Room {
        cells: vec![Cell::splatted_room_floor(1)],
        max_side_length: 4,
    };

    let translated = room.translate(4, 6);
    let translated_cell = translated.cells.first().unwrap();

    assert_eq!(translated_cell.coordinate().x(), 5);
    assert_eq!(translated_cell.coordinate().y(), 7);
}

#[test]
fn room_from_template_string_builds_right_side_length() {
    let room = Room::from_template_string("wwww\nwffw\nwffd\nwwww");
    assert_eq!(room.max_side_length(), 4);
}

#[test]
fn room_from_template_string_builds_right_room() {
    let template = "
        ||||
        |==|
        |==D
        ||||
        ";
    let room = Room::from_template_string(template);
    assert_eq!(room.cells.len(), 16);

    // Bottom wall
    for x in 0..4 {
        let cell = room.cell_at(x, 0).unwrap();
        assert_eq!(cell.cell_type_at_layer(1).unwrap(), LayerType::RoomWall);
    }

    // Lower room
    let cell_0_1 = room.cell_at(0, 1).unwrap();
    assert_eq!(cell_0_1.cell_type_at_layer(1).unwrap(), LayerType::RoomWall);
    let cell_1_1 = room.cell_at(1, 1).unwrap();
    assert_eq!(cell_1_1.cell_type(), LayerType::RoomFloor);
    let cell_2_1 = room.cell_at(2, 1).unwrap();
    assert_eq!(cell_2_1.cell_type(), LayerType::RoomFloor);
    let cell_3_1 = room.cell_at(3, 1).unwrap();
    assert_eq!(cell_3_1.cell_type(), LayerType::Door);

    // Upper room
    let cell_0_2 = room.cell_at(0, 2).unwrap();
    assert_eq!(cell_0_2.cell_type_at_layer(1).unwrap(), LayerType::RoomWall);
    let cell_1_2 = room.cell_at(1, 2).unwrap();
    assert_eq!(cell_1_2.cell_type(), LayerType::RoomFloor);
    let cell_2_2 = room.cell_at(2, 2).unwrap();
    assert_eq!(cell_2_2.cell_type(), LayerType::RoomFloor);
    let cell_3_2 = room.cell_at(3, 2).unwrap();
    assert_eq!(cell_3_2.cell_type_at_layer(1).unwrap(), LayerType::RoomWall);

    // Top wall
    for x in 0..4 {
        let cell = room.cell_at(x, 3).unwrap();
        assert_eq!(cell.cell_type_at_layer(1).unwrap(), LayerType::RoomWall);
    }
}

#[test]
fn template_scenario_visible_layers() {
    let room = Room::from_template_string("wwww\nwffw\nwffd\nwwww");
    assert_eq!(room.max_side_length(), 4);
    assert_eq!(
        room.cell_at(3, 1).unwrap().visible_layer(),
        LayerType::Door
    );
    assert_eq!(
        room.cell_at(1, 1).unwrap().visible_layer(),
        LayerType::RoomFloor
    );
    for (x, y) in [(0, 0), (3, 0), (0, 3), (3, 3)] {
        assert_eq!(
            room.cell_at(x, y).unwrap().visible_layer(),
            LayerType::RoomWall
        );
    }
}

#[test]
fn translate_round_trip_restores_coordinates() {
    let room = Room::from_template_string("wwww\nwffw\nwffd\nwwww");
    let back = room.translate(9, 11).translate(-9, -11);
    assert_eq!(back.cells.len(), room.cells.len());
    for (a, b) in room.cells.iter().zip(back.cells.iter()) {
        assert_eq!(a.coordinate(), b.coordinate());
        assert_eq!(a.layers(), b.layers());
    }
}

#[test]
fn stacked_templates_overlay_a_layer() {
    let templates = vec![
        "wwww\nwffw\nwwww".to_string(),
        "m&\nm".to_string(),
    ];
    let room = Room::from_template_strings(&templates);

    let overlaid = room.cell_at(1, 1).unwrap();
    assert_eq!(overlaid.layers().len(), 2);
    assert_eq!(overlaid.cell_type_at_layer(1).unwrap(), LayerType::Rubble);

    let untouched = room.cell_at(2, 1).unwrap();
    assert_eq!(untouched.layers().len(), 1);
    assert_eq!(untouched.cell_type(), LayerType::RoomFloor);
}

#[test]
fn door_cells_sit_on_the_boundary_next_to_floor() {
    let room = Room::from_template_string("wwww\nwffw\nwffw\nwwww");
    let doors = room.possible_door_cells();
    assert!(!doors.is_empty());
    for cell in doors {
        assert_eq!(cell.visible_layer(), LayerType::RoomWall);
        let x = cell.coordinate().x();
        let y = cell.coordinate().y();
        // never a corner: corners have no orthogonal floor neighbour
        assert!(!((x == 0 || x == 3) && (y == 0 || y == 3)));
    }
}

#[test]
fn spawnable_cells_are_the_visible_floors() {
    let room = Room::from_template_string("wwww\nwffw\nwffd\nwwww");
    let spawnable = room.spawnable_cells();
    assert_eq!(spawnable.len(), 4);
    for cell in spawnable {
        assert_eq!(cell.visible_layer(), LayerType::RoomFloor);
    }
}

#[test]
fn replace_cell_contents_swaps_the_whole_stack() {
    let mut room = Room::from_template_string("wwww\nwffw\nwffd\nwwww");
    room.replace_cell_contents(0, 0, LayerType::Door);
    let cell = room.cell_at(0, 0).unwrap();
    assert_eq!(cell.layers().len(), 1);
    assert_eq!(cell.visible_layer(), LayerType::Door);
}

#[test]
fn add_layer_to_cell_stacks_on_top() {
    let mut room = Room::from_template_string("wwww\nwffw\nwffd\nwwww");
    room.add_layer_to_cell(1, 1, LayerType::Table);
    let cell = room.cell_at(1, 1).unwrap();
    assert_eq!(cell.visible_layer(), LayerType::Table);
    assert_eq!(cell.cell_type(), LayerType::RoomFloor);
}

#[test]
fn blank_lines_and_indentation_are_trimmed() {
    let room = Room::from_template_string("\n\n   ww\n   ww\n\n");
    assert_eq!(room.max_side_length(), 2);
    assert!(room.cell_at(0, 0).is_some());
    assert!(room.cell_at(1, 1).is_some());
    assert!(room.cell_at(2, 0).is_none());
}

#[test]
fn translate_moves_room() {
    let room = Room {
        cells: vec![Cell::splatted_room_floor(1)],
        max_side_length: 4,
    };

    let translated = room.translate(4, 6);
    let translated_cell = translated.cells.first().unwrap();

    assert_eq!(translated_cell.coordinate().x(), 5);
    assert_eq!(translated_cell.coordinate().y(), 7);
}
