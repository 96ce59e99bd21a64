//! The orchestration of one generation run: seeding, room placement,
//! empty-fill, wall stamping, entry and exit selection, item scatter and
//! path marking, composed into a finished map.
//!
//! Every step is specified as a function of the configuration and the two
//! random-stream states, so a full run is, to the specification, one pure
//! function of its inputs: the heart of the determinism guarantee.

use vstd::prelude::*;
use vstd::set_lib::*;

use crate::cell::{Cell, CellView};
use crate::coordinate::Coordinate;
use crate::error::GenerationError;
use crate::grid::{
    spec_add_room_fold, spec_fill_empty, spec_grid_add_layer,
    spec_grid_bury_layer, spec_is_cell_empty, spec_on_ring, spec_spawnable_at,
    spec_spawnable_coords, spec_with_outer_wall, Grid, GridView,
};
use crate::items::{spec_chance_layer, ItemGeneration, ItemGenerationView};
use crate::layer::LayerType;
use crate::random::{gen_range_usize, range_next, rng_from_seed, seeded_rng, spec_draw};
use crate::room::{
    spec_add_layer_at, spec_door_cells_of, spec_replace_at, spec_room_wf,
    spec_spawnable_cells_of, spec_translate_cells, Room, RoomView,
};
use crate::route::{astar_route, find_path, spec_pair, spec_pairs_of, spec_walkable_pairs};
use crate::templates::RoomTemplates;
use crate::top_down_map::TopDownMap;

verus! {

/// The state carried through the placement loop: the grid, the
/// generator's own stream, the accepted-room count, and the cell sets of
/// the rooms accepted so far, in order of acceptance.
pub struct PlaceState {
    pub grid: GridView,
    pub rng: rand_pcg::Lcg128Xsl64,
    pub count: int,
    pub placed: Seq<Seq<CellView>>,
}

/// The views of the configured templates.
pub open spec fn spec_template_views(templates: Seq<Room>) -> Seq<RoomView> {
    templates.map_values(|t: Room| t@)
}

/// Whether every cell of a candidate room lands on a covered,
/// visibly-empty grid coordinate: the acceptance test for placement.
pub open spec fn spec_room_fits(g: GridView, cells: Seq<CellView>) -> bool {
    forall|i: int|
        0 <= i < cells.len() ==> spec_is_cell_empty(g, (#[trigger] cells[i]).coordinate)
}

/// One placement attempt: template choice, offset draws, door carving,
/// the occasional prop, and the all-or-nothing acceptance test.
pub open spec fn spec_attempt(st: PlaceState, templates: Seq<RoomView>, size: int) -> PlaceState {
    let t_draw = spec_draw(st.rng, 0, templates.len() as int);
    let rng1 = range_next(st.rng, 0, templates.len() as int);
    let template = templates[t_draw];
    let msl = template.max_side_length;
    let x = spec_draw(rng1, 1, size - msl + 1);
    let rng2 = range_next(rng1, 1, size - msl + 1);
    let y = spec_draw(rng2, 1, size - msl);
    let rng3 = range_next(rng2, 1, size - msl);
    let placed_cells = spec_translate_cells(template.cells, x, y);
    let doors = spec_door_cells_of(placed_cells, placed_cells);
    if doors.len() == 0 {
        PlaceState { grid: st.grid, rng: rng3, count: st.count, placed: st.placed }
    } else {
        let d_draw = spec_draw(rng3, 0, doors.len() as int);
        let rng4 = range_next(rng3, 0, doors.len() as int);
        let door = doors[d_draw];
        let with_door = spec_replace_at(
            placed_cells,
            door.coordinate.x as int,
            door.coordinate.y as int,
            LayerType::Door,
        );
        let roll = spec_draw(rng4, 1, 101);
        let rng5 = range_next(rng4, 1, 101);
        let after_prop = spec_attempt_prop(with_door, rng5, roll);
        let room_cells = after_prop.0;
        let rng6 = after_prop.1;
        if spec_room_fits(st.grid, room_cells) {
            PlaceState {
                grid: GridView {
                    size: st.grid.size,
                    cells: spec_add_room_fold(st.grid.cells, room_cells, room_cells.len() as int),
                    rng: st.grid.rng,
                },
                rng: rng6,
                count: st.count + 1,
                placed: st.placed.push(room_cells),
            }
        } else {
            PlaceState { grid: st.grid, rng: rng6, count: st.count, placed: st.placed }
        }
    }
}

/// The prop step of one attempt: with a one-in-four roll, one spawnable
/// cell of the room gains a table layer.
pub open spec fn spec_attempt_prop(
    cells: Seq<CellView>,
    rng: rand_pcg::Lcg128Xsl64,
    roll: int,
) -> (Seq<CellView>, rand_pcg::Lcg128Xsl64) {
    if roll <= 25 {
        let spawnable = spec_spawnable_cells_of(cells);
        if spawnable.len() > 0 {
            let s_draw = spec_draw(rng, 0, spawnable.len() as int);
            let rng1 = range_next(rng, 0, spawnable.len() as int);
            let target = spawnable[s_draw];
            (
                spec_add_layer_at(
                    cells,
                    target.coordinate.x as int,
                    target.coordinate.y as int,
                    LayerType::Table,
                ),
                rng1,
            )
        } else {
            (cells, rng)
        }
    } else {
        (cells, rng)
    }
}

/// The state after the first `i` placement attempts.
pub open spec fn spec_place_fold(
    st: PlaceState,
    templates: Seq<RoomView>,
    size: int,
    i: int,
) -> PlaceState
    decreases i,
{
    if i <= 0 {
        st
    } else {
        spec_attempt(spec_place_fold(st, templates, size, i - 1), templates, size)
    }
}

/// One hidden-item step: an unblocked coordinate from the grid's stream, a
/// chance from the generator's stream, and, when a table range matches,
/// the layer buried at the bottom of that cell's stack.
pub open spec fn spec_hidden_step(
    g: GridView,
    rng: rand_pcg::Lcg128Xsl64,
    cfg: ItemGenerationView,
) -> (GridView, rand_pcg::Lcg128Xsl64) {
    let coords = crate::grid::spec_unblocked_coords(g);
    let c = coords[spec_draw(g.rng, 0, coords.len() as int)];
    let g1 = GridView { size: g.size, cells: g.cells, rng: range_next(g.rng, 0, coords.len() as int) };
    let chance = spec_draw(rng, 0, 100);
    let rng1 = range_next(rng, 0, 100);
    match spec_chance_layer(cfg.item_ranges, chance) {
        Some(layer) => (
            GridView { size: g1.size, cells: spec_grid_bury_layer(g1, c, layer), rng: g1.rng },
            rng1,
        ),
        None => (g1, rng1),
    }
}

/// The state after the first `i` hidden-item placements.
pub open spec fn spec_hidden_fold(
    g: GridView,
    rng: rand_pcg::Lcg128Xsl64,
    cfg: ItemGenerationView,
    i: int,
) -> (GridView, rand_pcg::Lcg128Xsl64)
    decreases i,
{
    if i <= 0 {
        (g, rng)
    } else {
        let prev = spec_hidden_fold(g, rng, cfg, i - 1);
        spec_hidden_step(prev.0, prev.1, cfg)
    }
}

/// One visible-item step: a spawnable coordinate from the grid's stream, a
/// chance from the generator's stream, and, when a table range matches,
/// the layer pushed on top of that cell's stack.
pub open spec fn spec_visible_step(
    g: GridView,
    rng: rand_pcg::Lcg128Xsl64,
    cfg: ItemGenerationView,
) -> (GridView, rand_pcg::Lcg128Xsl64) {
    let coords = spec_spawnable_coords(g);
    let c = coords[spec_draw(g.rng, 0, coords.len() as int)];
    let g1 = GridView { size: g.size, cells: g.cells, rng: range_next(g.rng, 0, coords.len() as int) };
    let chance = spec_draw(rng, 0, 100);
    let rng1 = range_next(rng, 0, 100);
    match spec_chance_layer(cfg.item_ranges, chance) {
        Some(layer) => (
            GridView { size: g1.size, cells: spec_grid_add_layer(g1, c, layer), rng: g1.rng },
            rng1,
        ),
        None => (g1, rng1),
    }
}

/// The state after the first `i` visible-item placements.
pub open spec fn spec_visible_fold(
    g: GridView,
    rng: rand_pcg::Lcg128Xsl64,
    cfg: ItemGenerationView,
    i: int,
) -> (GridView, rand_pcg::Lcg128Xsl64)
    decreases i,
{
    if i <= 0 {
        (g, rng)
    } else {
        let prev = spec_visible_fold(g, rng, cfg, i - 1);
        spec_visible_step(prev.0, prev.1, cfg)
    }
}

/// The grid after marking the first `i` path coordinates: each one that is
/// neither entry nor exit gains a path layer.
pub open spec fn spec_mark_fold(
    g: GridView,
    path: Seq<Coordinate>,
    entry: Coordinate,
    exit: Coordinate,
    i: int,
) -> GridView
    decreases i,
{
    if i <= 0 {
        g
    } else {
        let prev = spec_mark_fold(g, path, entry, exit, i - 1);
        let c = path[i - 1];
        if c != entry && c != exit {
            GridView {
                size: prev.size,
                cells: spec_grid_add_layer(prev, c, LayerType::Path),
                rng: prev.rng,
            }
        } else {
            prev
        }
    }
}

/// The rows of the leftmost playable column whose cells are spawnable.
/// Placement never reaches that column, so after the empty-fill pass it is
/// pure floor, and each item placement can consume at most one row of it:
/// that is what keeps the spawnable draws of a run from running dry.
pub open spec fn spec_col0_spawn(g: GridView) -> Set<int> {
    Set::new(|y: int| 0 <= y < g.size && spec_spawnable_at(g, Coordinate { x: 0, y: y as i32 }))
}

/// The leftmost-column spawnable row set is finite and no larger than the
/// side length.
pub proof fn lemma_col0_finite(g: GridView)
    requires
        g.size >= 0,
    ensures
        spec_col0_spawn(g).finite(),
        spec_col0_spawn(g).len() <= g.size,
{
    let s = spec_col0_spawn(g);
    let range = set_int_range(0, g.size);
    lemma_int_range(0, g.size);
    assert(s.subset_of(range));
    lemma_len_subset(s, range);
}

/// The generator: the full configuration of one run, together with the
/// generator's own seeded random stream.
#[derive(Debug)]
pub struct Generator {
    pub grid_size: u16,
    pub target_number_rooms: u16,
    pub room_templates: RoomTemplates,
    pub seed: String,
    pub target_hidden_items: Option<ItemGeneration>,
    pub target_items: Option<ItemGeneration>,
    pub rng: rand_pcg::Lcg128Xsl64,
}

impl Generator {
    /// A generator from the full configuration. The stream is seeded here,
    /// once, from the seed string.
    pub fn new(
        seed: &str,
        grid_size: u16,
        target_number_rooms: u16,
        target_items: Option<ItemGeneration>,
        target_hidden_items: Option<ItemGeneration>,
        room_templates: RoomTemplates,
    ) -> (r: Generator)
        ensures
            r.grid_size == grid_size,
            r.target_number_rooms == target_number_rooms,
            r.seed@ == seed@,
            r.rng == seeded_rng(seed@),
            r.room_templates == room_templates,
            r.target_items == target_items,
            r.target_hidden_items == target_hidden_items,
    {
        Generator {
            grid_size,
            target_number_rooms,
            room_templates,
            seed: seed.to_owned(),
            target_hidden_items,
            target_items,
            rng: rng_from_seed(seed),
        }
    }

    /// A generator with the built-in templates and no item scatter.
    pub fn build(seed: &str, grid_size: u16, target_number_rooms: u16) -> (r: Generator)
        ensures
            r.grid_size == grid_size,
            r.target_number_rooms == target_number_rooms,
            r.seed@ == seed@,
            r.rng == seeded_rng(seed@),
            crate::templates::spec_default_rooms(r.room_templates.rooms@),
            r.target_items is None,
            r.target_hidden_items is None,
    {
        Generator {
            grid_size,
            target_number_rooms,
            room_templates: RoomTemplates::default(),
            seed: seed.to_owned(),
            target_hidden_items: None,
            target_items: None,
            rng: rng_from_seed(seed),
        }
    }
}

impl Default for Generator {
    /// The default configuration: seed "tdlg", a 100-cell square, 25
    /// target rooms, the built-in templates, and no item scatter.
    fn default() -> (r: Generator)
        ensures
            r.grid_size == 100,
            r.target_number_rooms == 25,
            r.seed@ == "tdlg"@,
            r.rng == seeded_rng("tdlg"@),
            crate::templates::spec_default_rooms(r.room_templates.rooms@),
            r.target_items is None,
            r.target_hidden_items is None,
    {
        Generator::build("tdlg", 100, 25)
    }
}

/// Whether every configured template leaves room for its placement
/// offsets on a grid of the given size. Generation demands this of its
/// caller; checking it here hands a caller the fact at runtime, for any
/// template mix, the built-in one included.
pub fn templates_fit(templates: &Vec<Room>, grid_size: u16) -> (r: bool)
    ensures
        r == forall|t: int|
            0 <= t < templates@.len() ==> (#[trigger] templates@[t])@.max_side_length + 2
                <= grid_size as int,
{
    let mut t: usize = 0;
    while t < templates.len()
        invariant
            t <= templates@.len(),
            forall|j: int|
                0 <= j < t ==> (#[trigger] templates@[j])@.max_side_length + 2 <= grid_size as int,
        decreases templates@.len() - t,
    {
        let msl = templates[t].max_side_length;
        if !(msl <= u16::MAX - 2 && msl + 2 <= grid_size) {
            proof {
                assert(templates@[t as int]@.max_side_length + 2 > grid_size as int);
            }
            return false;
        }
        t += 1;
    }
    true
}

/// Whether every cell of the room lands on a covered, visibly-empty grid
/// coordinate.
fn room_fits(grid: &Grid, room: &Room) -> (r: bool)
    requires
        grid.wf(),
    ensures
        r == spec_room_fits(grid@, room@.cells),
{
    let mut i: usize = 0;
    while i < room.cells.len()
        invariant
            grid.wf(),
            i <= room@.cells.len(),
            crate::room::views_of_cells(room.cells@) == room@.cells,
            forall|j: int|
                0 <= j < i ==> spec_is_cell_empty(grid@, (#[trigger] room@.cells[j]).coordinate),
        decreases room@.cells.len() - i,
    {
        proof {
            assert(room@.cells[i as int] == room.cells@[i as int]@);
        }
        if !grid.is_cell_empty(&room.cells[i].coordinate) {
            return false;
        }
        i += 1;
    }
    true
}

/// Run the placement loop: exactly `target` attempts, each accepted only
/// when its whole footprint lands on visibly-empty cells.
fn place_rooms(
    grid: &mut Grid,
    rng: &mut rand_pcg::Lcg128Xsl64,
    templates: &Vec<Room>,
    size: u16,
    target: u16,
) -> (count: usize)
    requires
        old(grid).wf(),
        old(grid)@.size == size as int,
        1 <= size <= 65533,
        templates@.len() > 0,
        forall|t: int|
            0 <= t < templates@.len() ==> spec_room_wf((#[trigger] templates@[t])@)
                && templates@[t]@.max_side_length + 2 <= size as int,
    ensures
        final(grid).wf(),
        ({
            let st = spec_place_fold(
                PlaceState {
                    grid: old(grid)@,
                    rng: *old(rng),
                    count: 0,
                    placed: Seq::<Seq<CellView>>::empty(),
                },
                spec_template_views(templates@),
                size as int,
                target as int,
            );
            final(grid)@ == st.grid && *final(rng) == st.rng && count as int == st.count
        }),
        count <= target,
{
    let ghost templates_v = spec_template_views(templates@);
    let ghost st0 = PlaceState {
        grid: old(grid)@,
        rng: *old(rng),
        count: 0,
        placed: Seq::<Seq<CellView>>::empty(),
    };
    let mut count: usize = 0;
    let mut i: u16 = 0;
    while i < target
        invariant
            grid.wf(),
            grid@.size == size as int,
            1 <= size <= 65533,
            templates@.len() > 0,
            forall|t: int|
                0 <= t < templates@.len() ==> spec_room_wf((#[trigger] templates@[t])@)
                    && templates@[t]@.max_side_length + 2 <= size as int,
            templates_v == spec_template_views(templates@),
            i <= target,
            count <= i,
            ({
                let st = spec_place_fold(st0, templates_v, size as int, i as int);
                grid@ == st.grid && *rng == st.rng && count as int == st.count && st.placed.len()
                    == st.count
            }),
        decreases target - i,
    {
        let ghost st_prev = spec_place_fold(st0, templates_v, size as int, i as int);
        let t_idx = gen_range_usize(rng, 0, templates.len());
        let template = &templates[t_idx];
        proof {
            assert(templates_v[t_idx as int] == templates@[t_idx as int]@);
        }
        let ghost tv = templates_v[t_idx as int];
        let msl_u: usize = template.max_side_length as usize;
        let size_us: usize = size as usize;
        let x_off = gen_range_usize(rng, 1, size_us - msl_u + 1);
        let y_off = gen_range_usize(rng, 1, size_us - msl_u);
        proof {
            assert forall|j: int| 0 <= j < template@.cells.len() implies {
                let cv = #[trigger] template@.cells[j];
                i32::MIN <= cv.coordinate.x + x_off as i32 <= i32::MAX && i32::MIN
                    <= cv.coordinate.y + y_off as i32 <= i32::MAX
            } by {
                assert(spec_room_wf(template@));
                assert(0 <= template@.cells[j].coordinate.x < template@.max_side_length);
                assert(0 <= template@.cells[j].coordinate.y < template@.max_side_length);
            }
        }
        let mut room = template.translate(x_off as i32, y_off as i32);
        let ghost room_cells0 = spec_translate_cells(tv.cells, x_off as int, y_off as int);
        proof {
            assert(room@.cells == room_cells0);
            assert forall|j: int| 0 <= j < room@.cells.len() implies {
                let cv = #[trigger] room@.cells[j];
                i32::MIN < cv.coordinate.x < i32::MAX && i32::MIN < cv.coordinate.y < i32::MAX
            } by {
                assert(room@.cells[j] == crate::room::spec_translate_cell(
                    tv.cells[j],
                    x_off as int,
                    y_off as int,
                ));
                assert(0 <= tv.cells[j].coordinate.x < tv.max_side_length);
                assert(0 <= tv.cells[j].coordinate.y < tv.max_side_length);
            }
        }
        let ghost doors = spec_door_cells_of(room_cells0, room_cells0);
        let mut door_found = false;
        let mut dx: i32 = 0;
        let mut dy: i32 = 0;
        {
            let door_cells = room.possible_door_cells();
            proof {
                assert(door_cells@.map_values(|c: &Cell| c@) == doors);
                assert(door_cells@.len() == doors.len());
            }
            if door_cells.len() > 0 {
                let d_idx = gen_range_usize(rng, 0, door_cells.len());
                let dc: &Cell = door_cells[d_idx];
                proof {
                    assert(door_cells@.map_values(|c: &Cell| c@)[d_idx as int] == doors[d_idx as int]);
                    assert(dc@ == doors[d_idx as int]);
                }
                dx = dc.coordinate.x;
                dy = dc.coordinate.y;
                door_found = true;
            }
        }
        if door_found {
            proof {
                assert(doors.len() > 0);
            }
            room.replace_cell_contents(dx, dy, LayerType::Door);
            let ghost with_door = spec_replace_at(
                room_cells0,
                dx as int,
                dy as int,
                LayerType::Door,
            );
            proof {
                assert(room@.cells == with_door);
            }
            let roll = gen_range_usize(rng, 1, 101);
            let ghost rng5 = *rng;
            let ghost after_prop = spec_attempt_prop(with_door, rng5, roll as int);
            if roll <= 25 {
                let ghost spawnable_spec = spec_spawnable_cells_of(with_door);
                let mut spawn_found = false;
                let mut sx: i32 = 0;
                let mut sy: i32 = 0;
                {
                    let spawnable = room.spawnable_cells();
                    proof {
                        assert(spawnable@.map_values(|c: &Cell| c@) == spawnable_spec);
                        assert(spawnable@.len() == spawnable_spec.len());
                    }
                    if spawnable.len() > 0 {
                        let s_idx = gen_range_usize(rng, 0, spawnable.len());
                        let sc: &Cell = spawnable[s_idx];
                        proof {
                            assert(spawnable@.map_values(|c: &Cell| c@)[s_idx as int]
                                == spawnable_spec[s_idx as int]);
                            assert(sc@ == spawnable_spec[s_idx as int]);
                        }
                        sx = sc.coordinate.x;
                        sy = sc.coordinate.y;
                        spawn_found = true;
                    }
                }
                if spawn_found {
                    room.add_layer_to_cell(sx, sy, LayerType::Table);
                    proof {
                        assert(room@.cells == after_prop.0);
                        assert(*rng == after_prop.1);
                    }
                } else {
                    proof {
                        assert(room@.cells == after_prop.0);
                        assert(*rng == after_prop.1);
                    }
                }
            } else {
                proof {
                    assert(room@.cells == after_prop.0);
                    assert(*rng == after_prop.1);
                }
            }
            let fits = room_fits(grid, &room);
            if fits {
                count += 1;
                let ghost grid_before = grid@;
                grid.add_room(room);
                proof {
                    let st_next = spec_attempt(st_prev, templates_v, size as int);
                    assert(grid@ =~~= st_next.grid);
                    assert(spec_place_fold(st0, templates_v, size as int, i + 1) == st_next);
                }
            } else {
                proof {
                    let st_next = spec_attempt(st_prev, templates_v, size as int);
                    assert(grid@ =~~= st_next.grid);
                    assert(spec_place_fold(st0, templates_v, size as int, i + 1) == st_next);
                }
            }
        } else {
            proof {
                let st_next = spec_attempt(st_prev, templates_v, size as int);
                assert(doors.len() == 0);
                assert(grid@ =~~= st_next.grid);
                assert(spec_place_fold(st0, templates_v, size as int, i + 1) == st_next);
            }
        }
        i += 1;
    }
    count
}

/// A cell map that changed at a single coordinate can lose at most that
/// coordinate's row from the leftmost-column spawnable set.
pub(crate) proof fn lemma_col0_after_touch(g1: GridView, g2: GridView, c: Coordinate)
    requires
        g1.size == g2.size,
        0 <= g1.size <= 65533,
        forall|d: Coordinate|
            d != c ==> g1.cells.contains_key(d) == g2.cells.contains_key(d),
        forall|d: Coordinate|
            d != c && g1.cells.contains_key(d) ==> g1.cells[d] == #[trigger] g2.cells[d],
    ensures
        spec_col0_spawn(g2).len() + 1 >= spec_col0_spawn(g1).len(),
{
    let s1 = spec_col0_spawn(g1);
    let s2 = spec_col0_spawn(g2);
    lemma_col0_finite(g1);
    lemma_col0_finite(g2);
    let removed = s1.remove(c.y as int);
    assert forall|y: int| removed.contains(y) implies s2.contains(y) by {
        assert(s1.contains(y));
        assert(0 <= y < g1.size);
        assert(y != c.y as int);
        let d = Coordinate { x: 0, y: y as i32 };
        assert((y as i32) as int == y);
        assert(d != c);
    }
    assert(removed.subset_of(s2));
    lemma_len_subset(removed, s2);
    vstd::set::axiom_set_remove_len(s1, c.y as int);
}

/// A grid whose leftmost-column spawnable set is inhabited has at least
/// one spawnable coordinate to draw from.
pub(crate) proof fn lemma_col0_nonempty_spawnable(g: GridView)
    requires
        1 <= g.size <= 65533,
        spec_col0_spawn(g).len() > 0,
    ensures
        spec_spawnable_coords(g).len() > 0,
{
    let s = spec_col0_spawn(g);
    lemma_col0_finite(g);
    if forall|y: int| !(#[trigger] s.contains(y)) {
        assert(s =~= Set::<int>::empty());
        assert(s.len() == 0);
    }
    let y = choose|y: int| s.contains(y);
    let c = Coordinate { x: 0, y: y as i32 };
    crate::grid::lemma_ord_inverse(g.size, c);
    let k = crate::grid::spec_ord(g.size, c);
    let all = crate::grid::spec_all_coords(g.size);
    assert(all[k] == c);
    assert(spec_spawnable_at(g, c));
    let pred = |d: Coordinate| spec_spawnable_at(g, d);
    all.lemma_filter_contains(pred, k);
    assert(spec_spawnable_coords(g).contains(c));
    if spec_spawnable_coords(g).len() == 0 {
        assert(!spec_spawnable_coords(g).contains(c));
    }
}

/// A grid whose leftmost-column spawnable set is inhabited has at least
/// one unblocked coordinate to draw from: a spawnable stack is pure floor,
/// which nothing in it obstructs.
pub(crate) proof fn lemma_col0_nonempty_unblocked(g: GridView)
    requires
        1 <= g.size <= 65533,
        spec_col0_spawn(g).len() > 0,
    ensures
        crate::grid::spec_unblocked_coords(g).len() > 0,
{
    let s = spec_col0_spawn(g);
    lemma_col0_finite(g);
    if forall|y: int| !(#[trigger] s.contains(y)) {
        assert(s =~= Set::<int>::empty());
        assert(s.len() == 0);
    }
    let y = choose|y: int| s.contains(y);
    let c = Coordinate { x: 0, y: y as i32 };
    crate::grid::lemma_ord_inverse(g.size, c);
    let k = crate::grid::spec_ord(g.size, c);
    let all = crate::grid::spec_all_coords(g.size);
    assert(all[k] == c);
    assert(spec_spawnable_at(g, c));
    assert(crate::grid::spec_unblocked_at(g, c)) by {
        let stack = g.cells[c];
        if crate::cell::spec_stack_obstructed(stack) {
            let i = choose|i: int|
                0 <= i < stack.len() && crate::layer::spec_obstructing(#[trigger] stack[i]);
            assert(crate::layer::spec_spawnable(stack[i]));
        }
    }
    let pred = |d: Coordinate| crate::grid::spec_unblocked_at(g, d);
    all.lemma_filter_contains(pred, k);
    assert(crate::grid::spec_unblocked_coords(g).contains(c));
    if crate::grid::spec_unblocked_coords(g).len() == 0 {
        assert(!crate::grid::spec_unblocked_coords(g).contains(c));
    }
}

/// Scatter the configured hidden items: for each one, an unblocked
/// coordinate from the grid's stream, a chance from the generator's
/// stream, and a burial when a table range matches.
fn scatter_hidden(grid: &mut Grid, rng: &mut rand_pcg::Lcg128Xsl64, cfg: &ItemGeneration)
    requires
        old(grid).wf(),
        1 <= old(grid)@.size <= 65533,
        spec_col0_spawn(old(grid)@).len() > cfg@.target_num_items,
    ensures
        final(grid).wf(),
        final(grid)@.size == old(grid)@.size,
        ({
            let out = spec_hidden_fold(old(grid)@, *old(rng), cfg@, cfg@.target_num_items);
            final(grid)@ == out.0 && *final(rng) == out.1
        }),
        forall|c: Coordinate|
            old(grid)@.cells.contains_key(c) == final(grid)@.cells.contains_key(c),
        spec_col0_spawn(final(grid)@).len() + cfg@.target_num_items >= spec_col0_spawn(
            old(grid)@,
        ).len(),
{
    let mut i: usize = 0;
    let target = cfg.target_num_items;
    while i < target
        invariant
            grid.wf(),
            1 <= grid@.size <= 65533,
            grid@.size == old(grid)@.size,
            i <= target,
            target == cfg@.target_num_items,
            ({
                let out = spec_hidden_fold(old(grid)@, *old(rng), cfg@, i as int);
                grid@ == out.0 && *rng == out.1
            }),
            forall|c: Coordinate|
                old(grid)@.cells.contains_key(c) == grid@.cells.contains_key(c),
            spec_col0_spawn(grid@).len() + i >= spec_col0_spawn(old(grid)@).len(),
            spec_col0_spawn(old(grid)@).len() > target,
        decreases target - i,
    {
        let ghost g_before = grid@;
        proof {
            lemma_col0_finite(g_before);
            assert(spec_col0_spawn(g_before).len() > 0);
            lemma_col0_nonempty_unblocked(g_before);
        }
        let coordinate = grid.random_unblocked_coordinate().unwrap();
        let chance = gen_range_usize(rng, 0, 100);
        match crate::items::find_chance_layer(&cfg.item_ranges, chance) {
            Some(layer) => {
                grid.bury_layer(&coordinate, layer);
            },
            None => {},
        }
        proof {
            assert(grid@ =~~= spec_hidden_fold(old(grid)@, *old(rng), cfg@, i + 1).0);
            assert(*rng == spec_hidden_fold(old(grid)@, *old(rng), cfg@, i + 1).1);
            lemma_col0_after_touch(g_before, grid@, coordinate);
            lemma_col0_finite(g_before);
            lemma_col0_finite(grid@);
        }
        i += 1;
    }
}

/// Scatter the configured visible items: for each one, a spawnable
/// coordinate from the grid's stream, a chance from the generator's
/// stream, and a layer added on top when a table range matches.
fn scatter_visible(grid: &mut Grid, rng: &mut rand_pcg::Lcg128Xsl64, cfg: &ItemGeneration)
    requires
        old(grid).wf(),
        1 <= old(grid)@.size <= 65533,
        spec_col0_spawn(old(grid)@).len() > cfg@.target_num_items,
    ensures
        final(grid).wf(),
        final(grid)@.size == old(grid)@.size,
        ({
            let out = spec_visible_fold(old(grid)@, *old(rng), cfg@, cfg@.target_num_items);
            final(grid)@ == out.0 && *final(rng) == out.1
        }),
        forall|c: Coordinate|
            old(grid)@.cells.contains_key(c) == final(grid)@.cells.contains_key(c),
        spec_col0_spawn(final(grid)@).len() + cfg@.target_num_items >= spec_col0_spawn(
            old(grid)@,
        ).len(),
{
    let mut i: usize = 0;
    let target = cfg.target_num_items;
    while i < target
        invariant
            grid.wf(),
            1 <= grid@.size <= 65533,
            grid@.size == old(grid)@.size,
            i <= target,
            target == cfg@.target_num_items,
            ({
                let out = spec_visible_fold(old(grid)@, *old(rng), cfg@, i as int);
                grid@ == out.0 && *rng == out.1
            }),
            forall|c: Coordinate|
                old(grid)@.cells.contains_key(c) == grid@.cells.contains_key(c),
            spec_col0_spawn(grid@).len() + i >= spec_col0_spawn(old(grid)@).len(),
            spec_col0_spawn(old(grid)@).len() > target,
        decreases target - i,
    {
        let ghost g_before = grid@;
        proof {
            lemma_col0_finite(g_before);
            assert(spec_col0_spawn(g_before).len() > 0);
            lemma_col0_nonempty_spawnable(g_before);
        }
        let coordinate = grid.random_spawnable_coordinate().unwrap();
        let chance = gen_range_usize(rng, 0, 100);
        match crate::items::find_chance_layer(&cfg.item_ranges, chance) {
            Some(layer) => {
                grid.add_layer(&coordinate, layer);
            },
            None => {},
        }
        proof {
            assert(grid@ =~~= spec_visible_fold(old(grid)@, *old(rng), cfg@, i + 1).0);
            assert(*rng == spec_visible_fold(old(grid)@, *old(rng), cfg@, i + 1).1);
            lemma_col0_after_touch(g_before, grid@, coordinate);
            lemma_col0_finite(g_before);
            lemma_col0_finite(grid@);
        }
        i += 1;
    }
}

/// The leftmost playable column is covered and still empty: the state the
/// placement phase leaves it in, since every placement offset is at least
/// one.
pub open spec fn spec_col0_untouched(g: GridView, size: int) -> bool {
    forall|y: int|
        0 <= y < size ==> #[trigger] g.cells.contains_key(Coordinate { x: 0, y: y as i32 })
            && g.cells[Coordinate { x: 0, y: y as i32 }] == Seq::<LayerType>::empty()
}

/// Stamping room cells whose x coordinates are all at least one never
/// touches a key left of that.
proof fn lemma_add_room_fold_left(
    cells: Map<Coordinate, Seq<LayerType>>,
    rcells: Seq<CellView>,
    i: int,
    c: Coordinate,
)
    requires
        0 <= i <= rcells.len(),
        forall|j: int| 0 <= j < rcells.len() ==> (#[trigger] rcells[j]).coordinate.x >= 1,
        c.x < 1,
    ensures
        spec_add_room_fold(cells, rcells, i).contains_key(c) == cells.contains_key(c),
        cells.contains_key(c) ==> spec_add_room_fold(cells, rcells, i)[c] == cells[c],
    decreases i,
{
    if i > 0 {
        lemma_add_room_fold_left(cells, rcells, i - 1, c);
        if 0 <= i - 1 < rcells.len() {
            assert(rcells[i - 1].coordinate.x >= 1);
            assert(rcells[i - 1].coordinate != c);
        }
    }
}

/// Replacing or layering a room's own cells never moves them.
proof fn lemma_room_edit_keeps_coords(before: Seq<CellView>, after: Seq<CellView>)
    requires
        after.len() == before.len(),
        forall|j: int| 0 <= j < before.len() ==> (#[trigger] after[j]).coordinate == before[j].coordinate,
        forall|j: int| 0 <= j < before.len() ==> (#[trigger] before[j]).coordinate.x >= 1,
    ensures
        forall|j: int| 0 <= j < after.len() ==> (#[trigger] after[j]).coordinate.x >= 1,
{
}

/// One placement attempt leaves the leftmost playable column untouched.
#[verifier::spinoff_prover]
#[verifier::rlimit(60)]
proof fn lemma_attempt_col0(st: PlaceState, templates: Seq<RoomView>, size: int)
    requires
        1 <= size <= 65533,
        st.grid.size == size,
        spec_col0_untouched(st.grid, size),
        templates.len() > 0,
        forall|t: int|
            0 <= t < templates.len() ==> spec_room_wf(#[trigger] templates[t])
                && templates[t].max_side_length + 2 <= size,
    ensures
        spec_attempt(st, templates, size).grid.size == size,
        spec_col0_untouched(spec_attempt(st, templates, size).grid, size),
{
    let t_draw = spec_draw(st.rng, 0, templates.len() as int);
    let rng1 = range_next(st.rng, 0, templates.len() as int);
    let template = templates[t_draw];
    let msl = template.max_side_length;
    let x = spec_draw(rng1, 1, size - msl + 1);
    let rng2 = range_next(rng1, 1, size - msl + 1);
    let y = spec_draw(rng2, 1, size - msl);
    let rng3 = range_next(rng2, 1, size - msl);
    let placed_cells = spec_translate_cells(template.cells, x, y);
    assert(spec_room_wf(template));
    assert(x >= 1);
    assert(y >= 1);
    assert forall|j: int| 0 <= j < placed_cells.len() implies (#[trigger] placed_cells[j]).coordinate.x
        >= 1 by {
        assert(placed_cells[j] == crate::room::spec_translate_cell(template.cells[j], x, y));
        assert(0 <= template.cells[j].coordinate.x < template.max_side_length);
        assert(x < size - msl + 1);
        assert(template.cells[j].coordinate.x + x < size);
    }
    let doors = spec_door_cells_of(placed_cells, placed_cells);
    if doors.len() > 0 {
        let d_draw = spec_draw(rng3, 0, doors.len() as int);
        let rng4 = range_next(rng3, 0, doors.len() as int);
        let door = doors[d_draw];
        let with_door = spec_replace_at(
            placed_cells,
            door.coordinate.x as int,
            door.coordinate.y as int,
            LayerType::Door,
        );
        assert(with_door.len() == placed_cells.len() && forall|j: int|
            0 <= j < placed_cells.len() ==> (#[trigger] with_door[j]).coordinate
                == placed_cells[j].coordinate) by {
            crate::room::lemma_find_cell_ensures(
                placed_cells,
                door.coordinate.x as int,
                door.coordinate.y as int,
            );
        }
        lemma_room_edit_keeps_coords(placed_cells, with_door);
        let roll = spec_draw(rng4, 1, 101);
        let rng5 = range_next(rng4, 1, 101);
        let after_prop = spec_attempt_prop(with_door, rng5, roll);
        let room_cells = after_prop.0;
        assert(room_cells.len() == with_door.len() && forall|j: int|
            0 <= j < with_door.len() ==> (#[trigger] room_cells[j]).coordinate
                == with_door[j].coordinate) by {
            if roll <= 25 {
                let spawnable = spec_spawnable_cells_of(with_door);
                if spawnable.len() > 0 {
                    let s_draw = spec_draw(rng5, 0, spawnable.len() as int);
                    let target = spawnable[s_draw];
                    crate::room::lemma_find_cell_ensures(
                        with_door,
                        target.coordinate.x as int,
                        target.coordinate.y as int,
                    );
                }
            }
        }
        lemma_room_edit_keeps_coords(with_door, room_cells);
        if spec_room_fits(st.grid, room_cells) {
            let out = spec_attempt(st, templates, size).grid;
            assert forall|yy: int| 0 <= yy < size implies #[trigger] out.cells.contains_key(
                Coordinate { x: 0, y: yy as i32 },
            ) && out.cells[Coordinate { x: 0, y: yy as i32 }] == Seq::<LayerType>::empty() by {
                lemma_add_room_fold_left(
                    st.grid.cells,
                    room_cells,
                    room_cells.len() as int,
                    Coordinate { x: 0, y: yy as i32 },
                );
            }
        }
    }
}

/// The whole placement phase leaves the leftmost playable column covered
/// and empty.
pub(crate) proof fn lemma_place_fold_col0(st: PlaceState, templates: Seq<RoomView>, size: int, i: int)
    requires
        1 <= size <= 65533,
        st.grid.size == size,
        spec_col0_untouched(st.grid, size),
        templates.len() > 0,
        forall|t: int|
            0 <= t < templates.len() ==> spec_room_wf(#[trigger] templates[t])
                && templates[t].max_side_length + 2 <= size,
        i >= 0,
    ensures
        spec_place_fold(st, templates, size, i).grid.size == size,
        spec_col0_untouched(spec_place_fold(st, templates, size, i).grid, size),
    decreases i,
{
    if i > 0 {
        lemma_place_fold_col0(st, templates, size, i - 1);
        lemma_attempt_col0(spec_place_fold(st, templates, size, i - 1), templates, size);
    }
}

/// The outcome of one full generation run, together with the grid states
/// the entry and exit were drawn from.
pub struct GenOutcome {
    pub grid: GridView,
    pub count: int,
    pub entry: Coordinate,
    pub exit: Coordinate,
    pub entry_grid: GridView,
    pub exit_grid: GridView,
    pub rng: rand_pcg::Lcg128Xsl64,
}

/// The freshly built grid: one empty cell per playable coordinate, with
/// the grid's stream seeded from the seed string.
pub open spec fn spec_initial_grid(size: int, seed: Seq<char>) -> GridView {
    GridView {
        size,
        cells: Map::new(
            |c: Coordinate| 0 <= c.x < size && 0 <= c.y < size,
            |c: Coordinate| Seq::<LayerType>::empty(),
        ),
        rng: seeded_rng(seed),
    }
}

/// The view of an optional scatter configuration.
pub open spec fn spec_item_views(o: Option<ItemGeneration>) -> Option<ItemGenerationView> {
    match o {
        Some(cfg) => Some(cfg@),
        None => None,
    }
}

/// Coordinates recovered from a path of plain pairs.
pub open spec fn spec_coords_of_pairs(pairs: Seq<(int, int)>) -> Seq<Coordinate> {
    pairs.map_values(|p: (int, int)| Coordinate { x: p.0 as i32, y: p.1 as i32 })
}

/// One full generation run as a function of the configuration and the
/// generator's starting stream state: grid building, placement, fill and
/// wall, entry selection, item scatter, exit selection, tagging, and path
/// marking.
pub open spec fn spec_generate(
    templates: Seq<RoomView>,
    size: int,
    target: int,
    hidden: Option<ItemGenerationView>,
    visible: Option<ItemGenerationView>,
    seed: Seq<char>,
    rng0: rand_pcg::Lcg128Xsl64,
) -> GenOutcome {
    let g0 = spec_initial_grid(size, seed);
    let pl = spec_place_fold(
        PlaceState { grid: g0, rng: rng0, count: 0, placed: Seq::<Seq<CellView>>::empty() },
        templates,
        size,
        target,
    );
    let g_fill = GridView {
        size: pl.grid.size,
        cells: spec_fill_empty(pl.grid.cells),
        rng: pl.grid.rng,
    };
    let g_wall = GridView { size: g_fill.size, cells: spec_with_outer_wall(g_fill), rng: g_fill.rng };
    let entry_cands = spec_spawnable_coords(g_wall);
    let entry = entry_cands[spec_draw(g_wall.rng, 0, entry_cands.len() as int)];
    let g_e = GridView {
        size: g_wall.size,
        cells: g_wall.cells,
        rng: range_next(g_wall.rng, 0, entry_cands.len() as int),
    };
    let hid = match hidden {
        Some(h) => spec_hidden_fold(g_e, pl.rng, h, h.target_num_items),
        None => (g_e, pl.rng),
    };
    let vis = match visible {
        Some(v) => spec_visible_fold(hid.0, hid.1, v, v.target_num_items),
        None => hid,
    };
    let g_v = vis.0;
    let exit_cands = spec_spawnable_coords(g_v);
    let exit = exit_cands[spec_draw(g_v.rng, 0, exit_cands.len() as int)];
    let g_x = GridView {
        size: g_v.size,
        cells: g_v.cells,
        rng: range_next(g_v.rng, 0, exit_cands.len() as int),
    };
    let g_en = GridView {
        size: g_x.size,
        cells: spec_grid_add_layer(g_x, entry, LayerType::Entrance),
        rng: g_x.rng,
    };
    let g_ex = GridView {
        size: g_en.size,
        cells: spec_grid_add_layer(g_en, exit, LayerType::Exit),
        rng: g_en.rng,
    };
    let route = astar_route(spec_walkable_pairs(g_ex), spec_pair(entry), spec_pair(exit));
    let g_final = match route {
        Some(pairs) => spec_mark_fold(
            g_ex,
            spec_coords_of_pairs(pairs),
            entry,
            exit,
            pairs.len() as int,
        ),
        None => g_ex,
    };
    GenOutcome {
        grid: g_final,
        count: pl.count,
        entry,
        exit,
        entry_grid: g_wall,
        exit_grid: g_v,
        rng: vis.1,
    }
}

impl Generator {
    /// Run one full generation. The only reportable failure is an empty
    /// template set; every other degenerate case yields a valid map. For
    /// every input the requirements admit, the result is exactly
    /// `spec_generate` of the configuration and the starting stream
    /// states: two runs with the same configuration and seed agree.
    pub fn generate_top_down_map(&mut self) -> (r: Result<TopDownMap, GenerationError>)
        requires
            1 <= old(self).grid_size <= 65533,
            forall|t: int|
                0 <= t < old(self).room_templates.rooms@.len() ==> spec_room_wf(
                    (#[trigger] old(self).room_templates.rooms@[t])@,
                ) && old(self).room_templates.rooms@[t]@.max_side_length + 2 <= old(
                    self,
                ).grid_size as int,
            spec_opt_target(old(self).target_hidden_items) + spec_opt_target(
                old(self).target_items,
            ) < old(self).grid_size as int,
        ensures
            match r {
                Err(e) => old(self).room_templates.rooms@.len() == 0 && e.message@
                    == "no_room_paths"@ && *final(self) == *old(self),
                Ok(map) => ({
                    let out = spec_generate(
                        spec_template_views(old(self).room_templates.rooms@),
                        old(self).grid_size as int,
                        old(self).target_number_rooms as int,
                        spec_item_views(old(self).target_hidden_items),
                        spec_item_views(old(self).target_items),
                        old(self).seed@,
                        old(self).rng,
                    );
                    &&& old(self).room_templates.rooms@.len() > 0
                    &&& map.grid_view() == out.grid
                    &&& map.grid_wf()
                    &&& map.room_count_spec() == out.count
                    &&& map.spec_entry() == out.entry
                    &&& map.spec_exit() == out.exit
                    &&& final(self).rng == out.rng
                    &&& final(self).grid_size == old(self).grid_size
                    &&& final(self).target_number_rooms == old(self).target_number_rooms
                    &&& final(self).seed == old(self).seed
                    &&& final(self).room_templates == old(self).room_templates
                    &&& final(self).target_items == old(self).target_items
                    &&& final(self).target_hidden_items == old(self).target_hidden_items
                    &&& map.room_count_spec() <= old(self).target_number_rooms as int
                }),
            },
    {
        if self.room_templates.rooms.len() == 0 {
            return Err(GenerationError::no_room_paths());
        }
        let ghost templates_v = spec_template_views(self.room_templates.rooms@);
        let ghost size_g = self.grid_size as int;
        let ghost rng0 = self.rng;
        let ghost seed0 = self.seed@;
        let size = self.grid_size;
        let mut grid = Grid::build(size, self.seed.as_str());
        proof {
            assert(grid@ =~~= spec_initial_grid(size_g, seed0));
            assert(spec_col0_untouched(grid@, size_g));
        }
        let ghost st0 = PlaceState {
            grid: grid@,
            rng: self.rng,
            count: 0,
            placed: Seq::<Seq<CellView>>::empty(),
        };
        let room_count = place_rooms(
            &mut grid,
            &mut self.rng,
            &self.room_templates.rooms,
            size,
            self.target_number_rooms,
        );
        let ghost pl = spec_place_fold(st0, templates_v, size_g, self.target_number_rooms as int);
        proof {
            lemma_place_fold_col0(st0, templates_v, size_g, self.target_number_rooms as int);
        }
        let ghost g_pl = grid@;
        grid.fill_empty_cells();
        let ghost g_fill = grid@;
        grid.create_outer_wall();
        let ghost g_wall = grid@;
        proof {
            lemma_col0_full_after_fill_and_wall(g_pl, g_fill, g_wall, size_g);
            assert(spec_col0_spawn(g_wall).len() >= size_g);
            lemma_col0_nonempty_spawnable(g_wall);
        }
        let entry_coordinate = grid.random_spawnable_coordinate().unwrap();
        proof {
            assert(spec_col0_spawn(grid@) =~= spec_col0_spawn(g_wall));
            let cands = spec_spawnable_coords(g_wall);
            let d = spec_draw(g_wall.rng, 0, cands.len() as int);
            assert(0 <= d < cands.len());
            crate::grid::lemma_spawnable_coord_bounds(g_wall, d);
            assert(-1 <= entry_coordinate.x <= size_g);
            assert(-1 <= entry_coordinate.y <= size_g);
        }
        let ghost h_target = spec_opt_target(self.target_hidden_items);
        let ghost v_target = spec_opt_target(self.target_items);
        match &self.target_hidden_items {
            Some(cfg) => {
                proof {
                    assert(spec_col0_spawn(grid@).len() >= size_g);
                    assert(spec_col0_spawn(grid@).len() > cfg@.target_num_items);
                }
                scatter_hidden(&mut grid, &mut self.rng, cfg);
            },
            None => {},
        }
        match &self.target_items {
            Some(cfg) => {
                proof {
                    assert(spec_col0_spawn(grid@).len() > cfg@.target_num_items);
                }
                scatter_visible(&mut grid, &mut self.rng, cfg);
            },
            None => {},
        }
        let ghost g_items = grid@;
        proof {
            assert(spec_col0_spawn(g_items).len() > 0);
            lemma_col0_nonempty_spawnable(g_items);
        }
        let exit_coordinate = grid.random_spawnable_coordinate().unwrap();
        proof {
            let cands = spec_spawnable_coords(g_items);
            let d = spec_draw(g_items.rng, 0, cands.len() as int);
            assert(0 <= d < cands.len());
            crate::grid::lemma_spawnable_coord_bounds(g_items, d);
            assert(-1 <= exit_coordinate.x <= size_g);
            assert(-1 <= exit_coordinate.y <= size_g);
        }
        grid.add_layer(&entry_coordinate, LayerType::Entrance);
        grid.add_layer(&exit_coordinate, LayerType::Exit);
        let ghost g_ex = grid@;
        let path_result = find_path(&grid, &entry_coordinate, &exit_coordinate);
        match path_result {
            Some(path) => {
                proof {
                    assert(spec_coords_of_pairs(spec_pairs_of(path@)) =~~= path@);
                }
                let mut i: usize = 0;
                while i < path.len()
                    invariant
                        grid.wf(),
                        i <= path@.len(),
                        grid@ == spec_mark_fold(
                            g_ex,
                            path@,
                            entry_coordinate,
                            exit_coordinate,
                            i as int,
                        ),
                    decreases path@.len() - i,
                {
                    let c = path[i];
                    if c != entry_coordinate && c != exit_coordinate {
                        grid.add_layer(&c, LayerType::Path);
                    }
                    proof {
                        assert(grid@ =~~= spec_mark_fold(
                            g_ex,
                            path@,
                            entry_coordinate,
                            exit_coordinate,
                            i + 1,
                        ));
                    }
                    i += 1;
                }
                proof {
                    lemma_mark_fold_congruent(
                        g_ex,
                        path@,
                        spec_coords_of_pairs(spec_pairs_of(path@)),
                        entry_coordinate,
                        exit_coordinate,
                        path@.len() as int,
                    );
                }
            },
            None => {},
        }
        Ok(TopDownMap::new(grid, room_count, entry_coordinate, exit_coordinate))
    }
}

/// The target count of an optional scatter configuration, zero when none
/// is configured.
pub open spec fn spec_opt_target(o: Option<ItemGeneration>) -> int {
    match o {
        Some(cfg) => cfg@.target_num_items,
        None => 0,
    }
}

/// The target count of an optional scatter configuration view, zero when
/// none is configured.
pub open spec fn spec_opt_view_target(o: Option<ItemGenerationView>) -> int {
    match o {
        Some(cfg) => cfg.target_num_items,
        None => 0,
    }
}

/// Marking with equal paths yields equal grids.
proof fn lemma_mark_fold_congruent(
    g: GridView,
    p1: Seq<Coordinate>,
    p2: Seq<Coordinate>,
    entry: Coordinate,
    exit: Coordinate,
    i: int,
)
    requires
        p1 == p2,
    ensures
        spec_mark_fold(g, p1, entry, exit, i) == spec_mark_fold(g, p2, entry, exit, i),
{
}

/// After the fill pass the whole leftmost playable column is a single
/// floor layer, and the wall pass does not touch it: its spawnable row
/// set is the full range.
pub(crate) proof fn lemma_col0_full_after_fill_and_wall(g_pl: GridView, g_fill: GridView, g_wall: GridView, size: int)
    requires
        1 <= size <= 65533,
        g_pl.size == size,
        g_fill.size == size,
        g_wall.size == size,
        spec_col0_untouched(g_pl, size),
        g_fill.cells == spec_fill_empty(g_pl.cells),
        g_wall.cells == spec_with_outer_wall(g_fill),
    ensures
        spec_col0_spawn(g_wall).len() >= size,
{
    let range = set_int_range(0, size);
    lemma_int_range(0, size);
    assert forall|y: int| range.contains(y) implies spec_col0_spawn(g_wall).contains(y) by {
        let c = Coordinate { x: 0, y: y as i32 };
        assert(g_pl.cells.contains_key(c));
        assert(g_pl.cells[c] == Seq::<LayerType>::empty());
        assert(g_fill.cells.contains_key(c));
        assert(crate::cell::spec_visible(g_pl.cells[c]) == LayerType::Empty);
        assert(g_fill.cells[c] == seq![LayerType::Floor]);
        assert(!spec_on_ring(size, c));
        assert(g_wall.cells.contains_key(c));
        assert(g_wall.cells[c] == seq![LayerType::Floor]);
        assert(crate::cell::spec_stack_spawnable(seq![LayerType::Floor])) by {
            assert(seq![LayerType::Floor][0] == LayerType::Floor);
            assert(crate::layer::spec_spawnable(LayerType::Floor));
        }
        assert(spec_spawnable_at(g_wall, c));
    }
    assert(range.subset_of(spec_col0_spawn(g_wall)));
    lemma_col0_finite(g_wall);
    lemma_len_subset(range, spec_col0_spawn(g_wall));
}

} // verus!
