use tdlg::coordinate::Coordinate;
use tdlg::error::GenerationError;
use tdlg::generator::Generator;
use tdlg::grid::Grid;
use tdlg::items::{find_chance_layer, ItemChance, ItemGeneration};
use tdlg::layer::LayerType;
use tdlg::room::Room;
use tdlg::route::find_path;
use tdlg::templates::{all_room_templates, RoomTemplates};

#[test]
fn generation_succeeds_with_seed_godzilla() {
    let mut generator = Generator::build("godzilla", 100, 30);
    let map = generator.generate_top_down_map().unwrap();
    assert!(map.room_count() <= 30);
    assert_ne!(map.entry(), map.exit());
}

#[test]
fn same_seed_generates_identical_grids() {
    let mut first = Generator::build("godzilla", 50, 12);
    let mut second = Generator::build("godzilla", 50, 12);
    let map_a = first.generate_top_down_map().unwrap();
    let map_b = second.generate_top_down_map().unwrap();
    assert_eq!(
        map_a.grid().top_layer_display(),
        map_b.grid().top_layer_display()
    );
    assert_eq!(map_a.entry(), map_b.entry());
    assert_eq!(map_a.exit(), map_b.exit());
    assert_eq!(map_a.room_count(), map_b.room_count());
}

#[test]
fn different_seeds_generate_different_grids() {
    let mut first = Generator::build("godzilla", 50, 12);
    let mut second = Generator::build("mothra", 50, 12);
    let map_a = first.generate_top_down_map().unwrap();
    let map_b = second.generate_top_down_map().unwrap();
    assert_ne!(
        map_a.grid().top_layer_display(),
        map_b.grid().top_layer_display()
    );
}

#[test]
fn empty_template_configuration_returns_error() {
    let mut generator = Generator::new(
        "seed",
        20,
        5,
        None,
        None,
        RoomTemplates { rooms: vec![] },
    );
    let result = generator.generate_top_down_map();
    let error = result.err().unwrap();
    assert_eq!(error.message().as_str(), "no_room_paths");
}

#[test]
fn error_constructors_carry_their_messages() {
    assert_eq!(
        GenerationError::no_room_paths().message().as_str(),
        "no_room_paths"
    );
    assert_eq!(
        GenerationError::room_templates_cannot_be_loaded().message().as_str(),
        "room_templates_cannot_be_loaded"
    );
}

#[test]
fn generation_with_item_tables_succeeds() {
    let hidden = ItemGeneration {
        target_num_items: 8,
        item_ranges: vec![
            ItemChance {
                layer_type: LayerType::Note,
                chance_start: 0,
                chance_end: 40,
            },
            ItemChance {
                layer_type: LayerType::CommonItem,
                chance_start: 40,
                chance_end: 100,
            },
        ],
    };
    let visible = ItemGeneration {
        target_num_items: 8,
        item_ranges: vec![ItemChance {
            layer_type: LayerType::Rubble,
            chance_start: 0,
            chance_end: 60,
        }],
    };
    let mut generator = Generator::new(
        "kraken",
        60,
        10,
        Some(visible),
        Some(hidden),
        RoomTemplates::default(),
    );
    let map = generator.generate_top_down_map().unwrap();
    assert!(map.room_count() <= 10);
}

#[test]
fn chance_table_picks_the_first_matching_range() {
    let ranges = vec![
        ItemChance {
            layer_type: LayerType::Note,
            chance_start: 0,
            chance_end: 50,
        },
        ItemChance {
            layer_type: LayerType::Rubble,
            chance_start: 50,
            chance_end: 100,
        },
    ];
    assert_eq!(find_chance_layer(&ranges, 10), Some(LayerType::Note));
    assert_eq!(find_chance_layer(&ranges, 75), Some(LayerType::Rubble));
    assert_eq!(find_chance_layer(&ranges, 100), None);
}

#[test]
fn fill_pass_leaves_no_empty_visible_layer() {
    let mut grid = Grid::build(5, "seed");
    grid.fill_empty_cells();
    for cell in grid.cells() {
        assert_ne!(cell.visible_layer(), LayerType::Empty);
        assert!(!cell.is_empty());
    }
}

#[test]
fn generated_map_has_no_empty_visible_layer() {
    let mut generator = Generator::build("leviathan", 40, 8);
    let map = generator.generate_top_down_map().unwrap();
    for cell in map.grid().cells() {
        assert_ne!(cell.visible_layer(), LayerType::Empty);
    }
}

#[test]
fn stamped_room_blocks_overlapping_placement() {
    let mut grid = Grid::build(10, "seed");
    let room = Room::from_template_string("www\nwfw\nwww").translate(1, 1);
    assert!(grid.is_cell_empty(&Coordinate::new(1, 1)));
    grid.add_room(room);
    // every stamped coordinate now fails the emptiness test rooms are
    // accepted under, so an overlapping room would be rejected
    for x in 1..4 {
        for y in 1..4 {
            assert!(!grid.is_cell_empty(&Coordinate::new(x, y)));
        }
    }
    assert!(grid.is_cell_empty(&Coordinate::new(5, 5)));
}

#[test]
fn outer_wall_rings_the_grid() {
    let mut grid = Grid::build(2, "seed");
    grid.fill_empty_cells();
    grid.create_outer_wall();
    assert_eq!(
        grid.top_layer_display(),
        "****\n*··*\n*··*\n****\n"
    );
}

#[test]
fn surrounding_walkable_coordinates_in_query_order() {
    let mut grid = Grid::build(3, "seed");
    grid.fill_empty_cells();
    let neighbours = grid.surrounding_walkable_coordinates(&Coordinate::new(1, 1));
    assert_eq!(
        neighbours,
        vec![
            Coordinate::new(0, 1),
            Coordinate::new(1, 2),
            Coordinate::new(2, 1),
            Coordinate::new(1, 0),
        ]
    );
}

#[test]
fn path_search_connects_open_ground() {
    let mut grid = Grid::build(5, "seed");
    grid.fill_empty_cells();
    let start = Coordinate::new(0, 0);
    let goal = Coordinate::new(4, 4);
    let path = find_path(&grid, &start, &goal).unwrap();
    assert_eq!(*path.first().unwrap(), start);
    assert_eq!(*path.last().unwrap(), goal);
    assert!(path.len() >= 9);
}

#[test]
fn path_search_reports_unreachable_goals() {
    let grid = Grid::build(4, "seed");
    // nothing filled: no cell is walkable, so no path can exist
    let start = Coordinate::new(0, 0);
    let goal = Coordinate::new(3, 3);
    assert!(find_path(&grid, &start, &goal).is_none());
}

#[test]
fn built_in_templates_have_expected_sizes() {
    let rooms = all_room_templates();
    assert_eq!(rooms.len(), 9);
    assert_eq!(rooms[0].max_side_length(), 4);
    assert_eq!(rooms[3].max_side_length(), 7);
    assert_eq!(rooms[4].max_side_length(), 6);
    assert_eq!(rooms[6].max_side_length(), 16);
}

#[test]
fn builder_fills_in_documented_defaults() {
    let built = tdlg::builder::builder().build();
    assert_eq!(built.grid_size, 100);
    assert_eq!(built.target_number_rooms, 25);
    assert_eq!(built.seed, "tdlg");
    assert_eq!(built.room_templates.rooms.len(), 9);
}

#[test]
fn builder_honours_explicit_settings() {
    let mut b = tdlg::builder::builder();
    b.seed("hydra");
    b.grid_size(30);
    b.target_number_rooms(4);
    let mut generator = b.build();
    assert_eq!(generator.grid_size, 30);
    assert_eq!(generator.target_number_rooms, 4);
    assert_eq!(generator.seed, "hydra");
    let map = generator.generate_top_down_map().unwrap();
    assert!(map.room_count() <= 4);
}

#[test]
fn random_coordinates_stay_on_the_grid() {
    let mut grid = Grid::build(6, "seed");
    grid.fill_empty_cells();
    for _ in 0..20 {
        let c = grid.random_spawnable_coordinate().unwrap();
        assert!(c.x >= 0 && c.x < 6);
        assert!(c.y >= 0 && c.y < 6);
        let u = grid.random_unblocked_coordinate().unwrap();
        assert!(u.x >= 0 && u.x < 6);
        assert!(u.y >= 0 && u.y < 6);
        let any = grid.random_coordinate().unwrap();
        assert!(any.x >= 0 && any.x < 6);
        assert!(any.y >= 0 && any.y < 6);
    }
}

#[test]
fn seeded_draws_are_reproducible() {
    let mut a = Grid::build(6, "same-seed");
    let mut b = Grid::build(6, "same-seed");
    a.fill_empty_cells();
    b.fill_empty_cells();
    for _ in 0..10 {
        assert_eq!(
            a.random_spawnable_coordinate().unwrap(),
            b.random_spawnable_coordinate().unwrap()
        );
    }
}

#[test]
fn entry_and_exit_are_tagged() {
    let mut generator = Generator::build("godzilla", 40, 6);
    let map = generator.generate_top_down_map().unwrap();
    let entry_cell = map.grid().cell(map.entry()).unwrap();
    let exit_cell = map.grid().cell(map.exit()).unwrap();
    assert!(entry_cell
        .layers()
        .iter()
        .any(|l| *l == LayerType::Entrance));
    assert!(exit_cell.layers().iter().any(|l| *l == LayerType::Exit));
}

#[test]
fn smallest_viable_grid_generates() {
    // the largest built-in template has side 16, so 18 is the smallest
    // grid that admits every default template
    let mut generator = Generator::build("tight", 18, 3);
    let map = generator.generate_top_down_map().unwrap();
    assert!(map.room_count() <= 3);
}

#[test]
fn missing_coordinates_are_not_empty_cells() {
    let grid = Grid::build(4, "seed");
    assert!(grid.cell(&Coordinate::new(9, 9)).is_none());
    assert!(grid.cell(&Coordinate::new(-2, 0)).is_none());
    assert!(!grid.is_cell_empty(&Coordinate::new(9, 9)));
    assert!(grid.is_cell_empty(&Coordinate::new(0, 0)));
}

#[test]
fn layering_off_the_grid_changes_nothing() {
    let mut grid = Grid::build(3, "seed");
    grid.fill_empty_cells();
    let before = grid.top_layer_display();
    grid.add_layer(&Coordinate::new(50, 50), LayerType::Rubble);
    grid.bury_layer(&Coordinate::new(-7, 1), LayerType::Note);
    assert_eq!(grid.top_layer_display(), before);
}

#[test]
fn unblocked_draws_avoid_the_obstruction_ring() {
    let mut grid = Grid::build(4, "seed");
    grid.fill_empty_cells();
    grid.create_outer_wall();
    for _ in 0..30 {
        let c = grid.random_unblocked_coordinate().unwrap();
        assert!(c.x >= 0 && c.x < 4);
        assert!(c.y >= 0 && c.y < 4);
    }
}
