//! The library-wide guarantees, stated and proved over the same
//! specification functions that the executable functions' contracts use.

use vstd::prelude::*;

use crate::cell::{spec_visible, CellView};
use crate::coordinate::Coordinate;
use crate::generator::{spec_attempt, spec_generate, spec_place_fold, spec_room_fits, PlaceState};
use crate::grid::{
    spec_add_room_fold, spec_fill_empty, spec_is_cell_empty, spec_restack, GridView,
};
use crate::items::ItemGenerationView;
use crate::layer::LayerType;
use crate::room::{spec_room_wf, spec_translate_cell, spec_translate_cells, RoomView};

verus! {

/// Determinism: a generation run is a pure function of the configuration
/// and the seed. Two configurations that agree on every input, both with
/// streams freshly seeded from the same seed string, yield the same
/// outcome, grid included.
pub proof fn lemma_generation_deterministic(
    templates_a: Seq<RoomView>,
    templates_b: Seq<RoomView>,
    size: int,
    target: int,
    hidden: Option<ItemGenerationView>,
    visible: Option<ItemGenerationView>,
    seed: Seq<char>,
)
    requires
        templates_a == templates_b,
    ensures
        spec_generate(
            templates_a,
            size,
            target,
            hidden,
            visible,
            seed,
            crate::random::seeded_rng(seed),
        ) == spec_generate(
            templates_b,
            size,
            target,
            hidden,
            visible,
            seed,
            crate::random::seeded_rng(seed),
        ),
{
}

/// Translation round trip: translating a room by `(dx, dy)` and back by
/// `(-dx, -dy)` restores every cell, coordinates and stacks alike.
pub proof fn lemma_translate_round_trip(cells: Seq<CellView>, dx: int, dy: int)
    requires
        forall|i: int|
            0 <= i < cells.len() ==> {
                let cv = #[trigger] cells[i];
                i32::MIN <= cv.coordinate.x + dx <= i32::MAX && i32::MIN <= cv.coordinate.y + dy
                    <= i32::MAX
            },
    ensures
        spec_translate_cells(spec_translate_cells(cells, dx, dy), -dx, -dy) == cells,
{
    let once = spec_translate_cells(cells, dx, dy);
    let back = spec_translate_cells(once, -dx, -dy);
    assert forall|i: int| 0 <= i < cells.len() implies back[i] == cells[i] by {
        assert(once[i] == spec_translate_cell(cells[i], dx, dy));
        assert(back[i] == spec_translate_cell(once[i], -dx, -dy));
    }
    assert(back =~~= cells);
}

/// Whether some cell of the collection sits at the coordinate.
pub open spec fn spec_covers(cells: Seq<CellView>, c: Coordinate) -> bool {
    exists|i: int| 0 <= i < cells.len() && (#[trigger] cells[i]).coordinate == c
}

/// Stamping a room changes nothing at a coordinate none of its cells
/// covers.
proof fn lemma_add_room_fold_elsewhere(
    cells: Map<Coordinate, Seq<LayerType>>,
    rcells: Seq<CellView>,
    i: int,
    c: Coordinate,
)
    requires
        0 <= i <= rcells.len(),
        !spec_covers(rcells, c),
    ensures
        spec_add_room_fold(cells, rcells, i).contains_key(c) == cells.contains_key(c),
        cells.contains_key(c) ==> spec_add_room_fold(cells, rcells, i)[c] == cells[c],
    decreases i,
{
    if i > 0 {
        lemma_add_room_fold_elsewhere(cells, rcells, i - 1, c);
        assert(rcells[i - 1].coordinate != c);
    }
}

/// A well-formed stack rebuilt layer by layer onto a cleared cell is again
/// non-empty and free of `Empty`.
proof fn lemma_restack_visible(layers: Seq<LayerType>, j: int)
    requires
        0 < j <= layers.len(),
        crate::cell::spec_stack_wf(layers),
    ensures
        spec_restack(layers, j).len() > 0,
        crate::cell::spec_stack_wf(spec_restack(layers, j)),
    decreases j,
{
    if j == 1 {
        assert(!layers.contains(LayerType::Empty));
        assert(layers[0] != LayerType::Empty) by {
            if layers[0] == LayerType::Empty {
                assert(layers.contains(LayerType::Empty));
            }
        }
        crate::cell::lemma_empty_stack_wf();
        crate::cell::lemma_add_layer_wf(Seq::<LayerType>::empty(), layers[0]);
    } else {
        lemma_restack_visible(layers, j - 1);
        assert(layers[j - 1] != LayerType::Empty) by {
            if layers[j - 1] == LayerType::Empty {
                assert(layers.contains(LayerType::Empty));
            }
        }
        crate::cell::lemma_add_layer_wf(spec_restack(layers, j - 1), layers[j - 1]);
    }
}

/// A non-empty stack free of `Empty` is not visibly empty.
proof fn lemma_wf_stack_visible(layers: Seq<LayerType>)
    requires
        layers.len() > 0,
        crate::cell::spec_stack_wf(layers),
    ensures
        spec_visible(layers) != LayerType::Empty,
{
    if spec_visible(layers) == LayerType::Empty {
        assert(layers.last() == LayerType::Empty);
        assert(layers.contains(LayerType::Empty));
    }
}

/// Every room the placement phase has accepted keeps a visibly non-empty
/// footprint in the grid, and the accepted rooms are pairwise disjoint.
pub open spec fn spec_placement_inv(st: PlaceState) -> bool {
    &&& st.count == st.placed.len()
    &&& forall|r: int, c: Coordinate|
        0 <= r < st.placed.len() && #[trigger] spec_covers(st.placed[r], c)
            ==> !spec_is_cell_empty(st.grid, c)
    &&& forall|a: int, b: int, c: Coordinate|
        #![trigger spec_covers(st.placed[a], c), spec_covers(st.placed[b], c)]
        0 <= a < b < st.placed.len() && spec_covers(st.placed[a], c) ==> !spec_covers(
            st.placed[b],
            c,
        )
    &&& forall|r: int, j: int|
        0 <= r < st.placed.len() && 0 <= j < st.placed[r].len() ==> {
            let cell = #[trigger] st.placed[r][j];
            cell.layers.len() > 0 && crate::cell::spec_stack_wf(cell.layers)
        }
}

/// The cells a placement attempt tries to stamp are non-empty, well-formed
/// stacks whenever the templates are well formed.
proof fn lemma_attempt_cells_wf(st: PlaceState, templates: Seq<RoomView>, size: int)
    requires
        templates.len() > 0,
        forall|t: int| 0 <= t < templates.len() ==> spec_room_wf(#[trigger] templates[t]),
    ensures
        ({
            let rc = spec_attempt_cells(st, templates, size);
            forall|j: int|
                0 <= j < rc.len() ==> (#[trigger] rc[j]).layers.len() > 0
                    && crate::cell::spec_stack_wf(rc[j].layers)
        }),
{
    let t_draw = crate::random::spec_draw(st.rng, 0, templates.len() as int);
    let rng1 = crate::random::range_next(st.rng, 0, templates.len() as int);
    let template = templates[t_draw];
    let msl = template.max_side_length;
    let x = crate::random::spec_draw(rng1, 1, size - msl + 1);
    let rng2 = crate::random::range_next(rng1, 1, size - msl + 1);
    let y = crate::random::spec_draw(rng2, 1, size - msl);
    let rng3 = crate::random::range_next(rng2, 1, size - msl);
    let placed_cells = spec_translate_cells(template.cells, x, y);
    assert(spec_room_wf(template));
    assert forall|j: int| 0 <= j < placed_cells.len() implies (#[trigger] placed_cells[j]).layers.len()
        > 0 && crate::cell::spec_stack_wf(placed_cells[j].layers) by {
        assert(placed_cells[j] == spec_translate_cell(template.cells[j], x, y));
    }
    let doors = crate::room::spec_door_cells_of(placed_cells, placed_cells);
    if doors.len() > 0 {
        let d_draw = crate::random::spec_draw(rng3, 0, doors.len() as int);
        let rng4 = crate::random::range_next(rng3, 0, doors.len() as int);
        let door = doors[d_draw];
        let with_door = crate::room::spec_replace_at(
            placed_cells,
            door.coordinate.x as int,
            door.coordinate.y as int,
            LayerType::Door,
        );
        crate::room::lemma_find_cell_ensures(
            placed_cells,
            door.coordinate.x as int,
            door.coordinate.y as int,
        );
        crate::cell::lemma_empty_stack_wf();
        crate::cell::lemma_add_layer_wf(Seq::<LayerType>::empty(), LayerType::Door);
        assert forall|j: int| 0 <= j < with_door.len() implies (#[trigger] with_door[j]).layers.len()
            > 0 && crate::cell::spec_stack_wf(with_door[j].layers) by {}
        let roll = crate::random::spec_draw(rng4, 1, 101);
        let rng5 = crate::random::range_next(rng4, 1, 101);
        let after_prop = crate::generator::spec_attempt_prop(with_door, rng5, roll);
        if roll <= 25 {
            let spawnable = crate::room::spec_spawnable_cells_of(with_door);
            if spawnable.len() > 0 {
                let s_draw = crate::random::spec_draw(rng5, 0, spawnable.len() as int);
                let target = spawnable[s_draw];
                crate::room::lemma_find_cell_ensures(
                    with_door,
                    target.coordinate.x as int,
                    target.coordinate.y as int,
                );
                match crate::room::spec_find_cell(
                    with_door,
                    target.coordinate.x as int,
                    target.coordinate.y as int,
                ) {
                    Some(k) => {
                        crate::cell::lemma_add_layer_wf(with_door[k].layers, LayerType::Table);
                    },
                    None => {},
                }
            }
        }
    }
}

/// The cells one placement attempt would stamp, door and prop applied.
pub open spec fn spec_attempt_cells(st: PlaceState, templates: Seq<RoomView>, size: int) -> Seq<
    CellView,
> {
    let t_draw = crate::random::spec_draw(st.rng, 0, templates.len() as int);
    let rng1 = crate::random::range_next(st.rng, 0, templates.len() as int);
    let template = templates[t_draw];
    let msl = template.max_side_length;
    let x = crate::random::spec_draw(rng1, 1, size - msl + 1);
    let rng2 = crate::random::range_next(rng1, 1, size - msl + 1);
    let y = crate::random::spec_draw(rng2, 1, size - msl);
    let rng3 = crate::random::range_next(rng2, 1, size - msl);
    let placed_cells = spec_translate_cells(template.cells, x, y);
    let doors = crate::room::spec_door_cells_of(placed_cells, placed_cells);
    if doors.len() == 0 {
        placed_cells
    } else {
        let d_draw = crate::random::spec_draw(rng3, 0, doors.len() as int);
        let rng4 = crate::random::range_next(rng3, 0, doors.len() as int);
        let door = doors[d_draw];
        let with_door = crate::room::spec_replace_at(
            placed_cells,
            door.coordinate.x as int,
            door.coordinate.y as int,
            LayerType::Door,
        );
        let roll = crate::random::spec_draw(rng4, 1, 101);
        let rng5 = crate::random::range_next(rng4, 1, 101);
        crate::generator::spec_attempt_prop(with_door, rng5, roll).0
    }
}

/// After stamping, every coordinate a room covers is visibly non-empty,
/// and coordinates it does not cover are untouched.
proof fn lemma_add_room_fold_covered(
    cells: Map<Coordinate, Seq<LayerType>>,
    rcells: Seq<CellView>,
    i: int,
    c: Coordinate,
)
    requires
        0 <= i <= rcells.len(),
        forall|j: int|
            0 <= j < rcells.len() ==> (#[trigger] rcells[j]).layers.len() > 0
                && crate::cell::spec_stack_wf(rcells[j].layers),
        exists|j: int| 0 <= j < i && (#[trigger] rcells[j]).coordinate == c,
        cells.contains_key(c),
    ensures
        spec_add_room_fold(cells, rcells, i).contains_key(c),
        spec_visible(spec_add_room_fold(cells, rcells, i)[c]) != LayerType::Empty,
    decreases i,
{
    let j = choose|j: int| 0 <= j < i && (#[trigger] rcells[j]).coordinate == c;
    let prev = spec_add_room_fold(cells, rcells, i - 1);
    if rcells[i - 1].coordinate == c {
        assert(prev.contains_key(c)) by {
            lemma_add_room_fold_contains(cells, rcells, i - 1, c);
        }
        lemma_restack_visible(rcells[i - 1].layers, rcells[i - 1].layers.len() as int);
        lemma_wf_stack_visible(spec_restack(rcells[i - 1].layers, rcells[i - 1].layers.len() as int));
    } else {
        assert(j < i - 1);
        lemma_add_room_fold_covered(cells, rcells, i - 1, c);
        lemma_add_room_fold_contains(cells, rcells, i, c);
    }
}

/// Stamping never removes coverage.
proof fn lemma_add_room_fold_contains(
    cells: Map<Coordinate, Seq<LayerType>>,
    rcells: Seq<CellView>,
    i: int,
    c: Coordinate,
)
    requires
        0 <= i <= rcells.len(),
    ensures
        spec_add_room_fold(cells, rcells, i).contains_key(c) == cells.contains_key(c),
    decreases i,
{
    if i > 0 {
        lemma_add_room_fold_contains(cells, rcells, i - 1, c);
    }
}

/// One placement attempt preserves the placement invariant.
#[verifier::spinoff_prover]
#[verifier::rlimit(100)]
proof fn lemma_attempt_preserves_inv(st: PlaceState, templates: Seq<RoomView>, size: int)
    requires
        spec_placement_inv(st),
        templates.len() > 0,
        forall|t: int| 0 <= t < templates.len() ==> spec_room_wf(#[trigger] templates[t]),
    ensures
        spec_placement_inv(spec_attempt(st, templates, size)),
    decreases 0int,
{
    let out = spec_attempt(st, templates, size);
    let rc = spec_attempt_cells(st, templates, size);
    lemma_attempt_cells_wf(st, templates, size);
    if out.placed.len() == st.placed.len() {
        assert(out.grid == st.grid && out.placed == st.placed && out.count == st.count);
    } else {
        assert(out.placed == st.placed.push(rc));
        assert(out.count == st.count + 1);
        assert(spec_room_fits(st.grid, rc));
        assert(out.grid.cells == spec_add_room_fold(st.grid.cells, rc, rc.len() as int));
        let newest = st.placed.len() as int;
        assert forall|r: int, c: Coordinate|
            0 <= r < out.placed.len() && #[trigger] spec_covers(out.placed[r], c) implies
            !spec_is_cell_empty(out.grid, c) by {
            if r < newest {
                assert(out.placed[r] == st.placed[r]);
                assert(!spec_is_cell_empty(st.grid, c));
                if spec_covers(rc, c) {
                    let j = choose|j: int| 0 <= j < rc.len() && (#[trigger] rc[j]).coordinate == c;
                    assert(spec_is_cell_empty(st.grid, rc[j].coordinate));
                } else {
                    lemma_add_room_fold_elsewhere(st.grid.cells, rc, rc.len() as int, c);
                }
            } else {
                assert(out.placed[r] == rc);
                let j = choose|j: int| 0 <= j < rc.len() && (#[trigger] rc[j]).coordinate == c;
                assert(spec_is_cell_empty(st.grid, c));
                assert(st.grid.cells.contains_key(c));
                lemma_add_room_fold_covered(st.grid.cells, rc, rc.len() as int, c);
            }
        }
        assert forall|a: int, b: int, c: Coordinate|
            #![trigger spec_covers(out.placed[a], c), spec_covers(out.placed[b], c)]
            0 <= a < b < out.placed.len() && spec_covers(out.placed[a], c) implies
            !spec_covers(out.placed[b], c) by {
            if b < newest {
                assert(out.placed[a] == st.placed[a]);
                assert(out.placed[b] == st.placed[b]);
            } else {
                assert(out.placed[b] == rc);
                assert(out.placed[a] == st.placed[a]);
                if spec_covers(rc, c) {
                    assert(!spec_is_cell_empty(st.grid, c));
                    let j = choose|j: int| 0 <= j < rc.len() && (#[trigger] rc[j]).coordinate == c;
                    assert(spec_is_cell_empty(st.grid, rc[j].coordinate));
                }
            }
        }
        assert(spec_placement_inv(out));
    }
}

/// The placement invariant holds after any number of attempts.
proof fn lemma_place_fold_inv(st: PlaceState, templates: Seq<RoomView>, size: int, i: int)
    requires
        spec_placement_inv(st),
        templates.len() > 0,
        forall|t: int| 0 <= t < templates.len() ==> spec_room_wf(#[trigger] templates[t]),
        i >= 0,
    ensures
        spec_placement_inv(spec_place_fold(st, templates, size, i)),
    decreases i,
{
    if i > 0 {
        lemma_place_fold_inv(st, templates, size, i - 1);
        lemma_attempt_preserves_inv(spec_place_fold(st, templates, size, i - 1), templates, size);
    }
}

/// Non-overlap: no two rooms accepted in a single placement run share a
/// coordinate.
pub proof fn lemma_accepted_rooms_disjoint(
    g0: GridView,
    rng0: rand_pcg::Lcg128Xsl64,
    templates: Seq<RoomView>,
    size: int,
    n: int,
    a: int,
    b: int,
    c: Coordinate,
)
    requires
        templates.len() > 0,
        forall|t: int| 0 <= t < templates.len() ==> spec_room_wf(#[trigger] templates[t]),
        n >= 0,
        ({
            let pl = spec_place_fold(
                PlaceState { grid: g0, rng: rng0, count: 0, placed: Seq::<Seq<CellView>>::empty() },
                templates,
                size,
                n,
            );
            0 <= a < b < pl.placed.len() && spec_covers(pl.placed[a], c)
        }),
    ensures
        !spec_covers(
            spec_place_fold(
                PlaceState { grid: g0, rng: rng0, count: 0, placed: Seq::<Seq<CellView>>::empty() },
                templates,
                size,
                n,
            ).placed[b],
            c,
        ),
{
    let st0 = PlaceState { grid: g0, rng: rng0, count: 0, placed: Seq::<Seq<CellView>>::empty() };
    assert(spec_placement_inv(st0));
    lemma_place_fold_inv(st0, templates, size, n);
}

/// After the empty-fill pass, no covered cell has an empty visible layer.
pub proof fn lemma_fill_leaves_no_empty_visible(cells: Map<Coordinate, Seq<LayerType>>, c: Coordinate)
    requires
        spec_fill_empty(cells).contains_key(c),
    ensures
        spec_visible(spec_fill_empty(cells)[c]) != LayerType::Empty,
{
    if spec_visible(cells[c]) == LayerType::Empty {
        assert(spec_fill_empty(cells)[c] == seq![LayerType::Floor]);
        assert(spec_fill_empty(cells)[c].last() == LayerType::Floor);
    }
}

/// No covered cell of the map shows an empty visible layer.
pub open spec fn spec_no_empty_visible(cells: Map<Coordinate, Seq<LayerType>>) -> bool {
    forall|c: Coordinate|
        #[trigger] cells.contains_key(c) ==> spec_visible(cells[c]) != LayerType::Empty
}

/// Pushing a layer at one coordinate never empties a visible layer.
proof fn lemma_add_keeps_no_empty(g: GridView, c: Coordinate, layer: LayerType)
    requires
        spec_no_empty_visible(g.cells),
    ensures
        spec_no_empty_visible(crate::grid::spec_grid_add_layer(g, c, layer)),
{
    let out = crate::grid::spec_grid_add_layer(g, c, layer);
    assert forall|d: Coordinate| #[trigger] out.contains_key(d) implies spec_visible(out[d])
        != LayerType::Empty by {
        assert(g.cells.contains_key(d));
        if g.cells.contains_key(c) && d == c {
            let s = g.cells[c];
            let s2 = crate::cell::spec_add_layer(s, layer);
            assert(spec_visible(s) != LayerType::Empty);
            assert(s.len() > 0);
            if layer != LayerType::Empty {
                assert(s2.last() != LayerType::Empty);
            }
        }
    }
}

/// Burying a layer at one coordinate never empties a visible layer.
proof fn lemma_bury_keeps_no_empty(g: GridView, c: Coordinate, layer: LayerType)
    requires
        spec_no_empty_visible(g.cells),
    ensures
        spec_no_empty_visible(crate::grid::spec_grid_bury_layer(g, c, layer)),
{
    let out = crate::grid::spec_grid_bury_layer(g, c, layer);
    assert forall|d: Coordinate| #[trigger] out.contains_key(d) implies spec_visible(out[d])
        != LayerType::Empty by {
        assert(g.cells.contains_key(d));
        if g.cells.contains_key(c) && d == c {
            let s = g.cells[c];
            let s2 = crate::cell::spec_bury_layer(s, layer);
            assert(spec_visible(s) != LayerType::Empty);
            assert(s.len() > 0);
            if layer != LayerType::Empty {
                assert(s2.last() == s.last());
            }
        }
    }
}

/// The hidden-item scatter never empties a visible layer.
proof fn lemma_hidden_fold_keeps_no_empty(
    g: GridView,
    rng: rand_pcg::Lcg128Xsl64,
    cfg: ItemGenerationView,
    i: int,
)
    requires
        spec_no_empty_visible(g.cells),
    ensures
        spec_no_empty_visible(crate::generator::spec_hidden_fold(g, rng, cfg, i).0.cells),
        crate::generator::spec_hidden_fold(g, rng, cfg, i).0.size == g.size,
    decreases i,
{
    if i > 0 {
        lemma_hidden_fold_keeps_no_empty(g, rng, cfg, i - 1);
        let prev = crate::generator::spec_hidden_fold(g, rng, cfg, i - 1);
        let g1 = prev.0;
        let coords = crate::grid::spec_unblocked_coords(g1);
        let c = coords[crate::random::spec_draw(g1.rng, 0, coords.len() as int)];
        let g2 = GridView { size: g1.size, cells: g1.cells, rng: crate::random::range_next(g1.rng, 0, coords.len() as int) };
        let chance = crate::random::spec_draw(rng_of_hidden(g, rng, cfg, i - 1), 0, 100);
        match crate::items::spec_chance_layer(cfg.item_ranges, chance) {
            Some(layer) => {
                lemma_bury_keeps_no_empty(g2, c, layer);
            },
            None => {},
        }
    }
}

/// The generator-stream state after a prefix of the hidden-item scatter.
spec fn rng_of_hidden(
    g: GridView,
    rng: rand_pcg::Lcg128Xsl64,
    cfg: ItemGenerationView,
    i: int,
) -> rand_pcg::Lcg128Xsl64 {
    crate::generator::spec_hidden_fold(g, rng, cfg, i).1
}

/// The visible-item scatter never empties a visible layer.
proof fn lemma_visible_fold_keeps_no_empty(
    g: GridView,
    rng: rand_pcg::Lcg128Xsl64,
    cfg: ItemGenerationView,
    i: int,
)
    requires
        spec_no_empty_visible(g.cells),
    ensures
        spec_no_empty_visible(crate::generator::spec_visible_fold(g, rng, cfg, i).0.cells),
        crate::generator::spec_visible_fold(g, rng, cfg, i).0.size == g.size,
    decreases i,
{
    if i > 0 {
        lemma_visible_fold_keeps_no_empty(g, rng, cfg, i - 1);
        let prev = crate::generator::spec_visible_fold(g, rng, cfg, i - 1);
        let g1 = prev.0;
        let coords = crate::grid::spec_spawnable_coords(g1);
        let c = coords[crate::random::spec_draw(g1.rng, 0, coords.len() as int)];
        let g2 = GridView { size: g1.size, cells: g1.cells, rng: crate::random::range_next(g1.rng, 0, coords.len() as int) };
        let chance = crate::random::spec_draw(prev.1, 0, 100);
        match crate::items::spec_chance_layer(cfg.item_ranges, chance) {
            Some(layer) => {
                lemma_add_keeps_no_empty(g2, c, layer);
            },
            None => {},
        }
    }
}

/// Path marking never empties a visible layer.
proof fn lemma_mark_fold_keeps_no_empty(
    g: GridView,
    path: Seq<Coordinate>,
    entry: Coordinate,
    exit: Coordinate,
    i: int,
)
    requires
        spec_no_empty_visible(g.cells),
    ensures
        spec_no_empty_visible(crate::generator::spec_mark_fold(g, path, entry, exit, i).cells),
    decreases i,
{
    if i > 0 {
        lemma_mark_fold_keeps_no_empty(g, path, entry, exit, i - 1);
        let prev = crate::generator::spec_mark_fold(g, path, entry, exit, i - 1);
        if path[i - 1] != entry && path[i - 1] != exit {
            lemma_add_keeps_no_empty(prev, path[i - 1], LayerType::Path);
        }
    }
}

/// In a finished map no covered cell, playable square and obstruction ring
/// alike, shows an empty visible layer: the empty-fill pass removes every
/// one, and every later step only adds layers.
pub proof fn lemma_generated_map_shows_no_empty(
    templates: Seq<RoomView>,
    size: int,
    target: int,
    hidden: Option<ItemGenerationView>,
    visible: Option<ItemGenerationView>,
    seed: Seq<char>,
    rng0: rand_pcg::Lcg128Xsl64,
)
    ensures
        spec_no_empty_visible(
            spec_generate(templates, size, target, hidden, visible, seed, rng0).grid.cells,
        ),
{
    let g0 = crate::generator::spec_initial_grid(size, seed);
    let pl = spec_place_fold(
        PlaceState { grid: g0, rng: rng0, count: 0, placed: Seq::<Seq<CellView>>::empty() },
        templates,
        size,
        target,
    );
    let g_fill = GridView {
        size: pl.grid.size,
        cells: spec_fill_empty(pl.grid.cells),
        rng: pl.grid.rng,
    };
    assert(spec_no_empty_visible(g_fill.cells)) by {
        assert forall|c: Coordinate| #[trigger] g_fill.cells.contains_key(c) implies spec_visible(
            g_fill.cells[c],
        ) != LayerType::Empty by {
            lemma_fill_leaves_no_empty_visible(pl.grid.cells, c);
        }
    }
    let g_wall = GridView {
        size: g_fill.size,
        cells: crate::grid::spec_with_outer_wall(g_fill),
        rng: g_fill.rng,
    };
    assert(spec_no_empty_visible(g_wall.cells)) by {
        assert forall|c: Coordinate| #[trigger] g_wall.cells.contains_key(c) implies spec_visible(
            g_wall.cells[c],
        ) != LayerType::Empty by {
            if crate::grid::spec_on_ring(g_fill.size, c) {
                assert(g_wall.cells[c] == seq![LayerType::OuterWall]);
                assert(g_wall.cells[c].last() == LayerType::OuterWall);
            } else {
                assert(g_fill.cells.contains_key(c));
            }
        }
    }
    let entry_cands = crate::grid::spec_spawnable_coords(g_wall);
    let entry = entry_cands[crate::random::spec_draw(g_wall.rng, 0, entry_cands.len() as int)];
    let g_e = GridView {
        size: g_wall.size,
        cells: g_wall.cells,
        rng: crate::random::range_next(g_wall.rng, 0, entry_cands.len() as int),
    };
    let hid = match hidden {
        Some(h) => {
            lemma_hidden_fold_keeps_no_empty(g_e, pl.rng, h, h.target_num_items);
            crate::generator::spec_hidden_fold(g_e, pl.rng, h, h.target_num_items)
        },
        None => (g_e, pl.rng),
    };
    let vis = match visible {
        Some(v) => {
            lemma_visible_fold_keeps_no_empty(hid.0, hid.1, v, v.target_num_items);
            crate::generator::spec_visible_fold(hid.0, hid.1, v, v.target_num_items)
        },
        None => hid,
    };
    let g_v = vis.0;
    let exit_cands = crate::grid::spec_spawnable_coords(g_v);
    let exit = exit_cands[crate::random::spec_draw(g_v.rng, 0, exit_cands.len() as int)];
    let g_x = GridView {
        size: g_v.size,
        cells: g_v.cells,
        rng: crate::random::range_next(g_v.rng, 0, exit_cands.len() as int),
    };
    lemma_add_keeps_no_empty(g_x, entry, LayerType::Entrance);
    let g_en = GridView {
        size: g_x.size,
        cells: crate::grid::spec_grid_add_layer(g_x, entry, LayerType::Entrance),
        rng: g_x.rng,
    };
    lemma_add_keeps_no_empty(g_en, exit, LayerType::Exit);
    let g_ex = GridView {
        size: g_en.size,
        cells: crate::grid::spec_grid_add_layer(g_en, exit, LayerType::Exit),
        rng: g_en.rng,
    };
    let route = crate::route::astar_route(
        crate::route::spec_walkable_pairs(g_ex),
        crate::route::spec_pair(entry),
        crate::route::spec_pair(exit),
    );
    match route {
        Some(pairs) => {
            lemma_mark_fold_keeps_no_empty(
                g_ex,
                crate::generator::spec_coords_of_pairs(pairs),
                entry,
                exit,
                pairs.len() as int,
            );
        },
        None => {},
    }
}

/// The hidden-item scatter consumes at most one leftmost-column spawnable
/// row per placement, and keeps the grid's size.
proof fn lemma_hidden_fold_col0(
    g: GridView,
    rng: rand_pcg::Lcg128Xsl64,
    cfg: ItemGenerationView,
    i: int,
)
    requires
        0 <= g.size <= 65533,
        i >= 0,
    ensures
        crate::generator::spec_hidden_fold(g, rng, cfg, i).0.size == g.size,
        crate::generator::spec_col0_spawn(crate::generator::spec_hidden_fold(g, rng, cfg, i).0).len()
            + i >= crate::generator::spec_col0_spawn(g).len(),
    decreases i,
{
    if i > 0 {
        lemma_hidden_fold_col0(g, rng, cfg, i - 1);
        let prev = crate::generator::spec_hidden_fold(g, rng, cfg, i - 1);
        let g1 = prev.0;
        let coords = crate::grid::spec_unblocked_coords(g1);
        let c = coords[crate::random::spec_draw(g1.rng, 0, coords.len() as int)];
        let g2 = GridView {
            size: g1.size,
            cells: g1.cells,
            rng: crate::random::range_next(g1.rng, 0, coords.len() as int),
        };
        assert(crate::generator::spec_col0_spawn(g2) =~= crate::generator::spec_col0_spawn(g1));
        let chance = crate::random::spec_draw(prev.1, 0, 100);
        let out = crate::generator::spec_hidden_fold(g, rng, cfg, i).0;
        match crate::items::spec_chance_layer(cfg.item_ranges, chance) {
            Some(layer) => {
                crate::generator::lemma_col0_after_touch(g2, out, c);
            },
            None => {
                assert(crate::generator::spec_col0_spawn(out) =~= crate::generator::spec_col0_spawn(
                    g2,
                ));
            },
        }
        crate::generator::lemma_col0_finite(g1);
        crate::generator::lemma_col0_finite(out);
    }
}

/// The visible-item scatter consumes at most one leftmost-column spawnable
/// row per placement, and keeps the grid's size.
proof fn lemma_visible_fold_col0(
    g: GridView,
    rng: rand_pcg::Lcg128Xsl64,
    cfg: ItemGenerationView,
    i: int,
)
    requires
        0 <= g.size <= 65533,
        i >= 0,
    ensures
        crate::generator::spec_visible_fold(g, rng, cfg, i).0.size == g.size,
        crate::generator::spec_col0_spawn(crate::generator::spec_visible_fold(g, rng, cfg, i).0).len()
            + i >= crate::generator::spec_col0_spawn(g).len(),
    decreases i,
{
    if i > 0 {
        lemma_visible_fold_col0(g, rng, cfg, i - 1);
        let prev = crate::generator::spec_visible_fold(g, rng, cfg, i - 1);
        let g1 = prev.0;
        let coords = crate::grid::spec_spawnable_coords(g1);
        let c = coords[crate::random::spec_draw(g1.rng, 0, coords.len() as int)];
        let g2 = GridView {
            size: g1.size,
            cells: g1.cells,
            rng: crate::random::range_next(g1.rng, 0, coords.len() as int),
        };
        assert(crate::generator::spec_col0_spawn(g2) =~= crate::generator::spec_col0_spawn(g1));
        let chance = crate::random::spec_draw(prev.1, 0, 100);
        let out = crate::generator::spec_visible_fold(g, rng, cfg, i).0;
        match crate::items::spec_chance_layer(cfg.item_ranges, chance) {
            Some(layer) => {
                crate::generator::lemma_col0_after_touch(g2, out, c);
            },
            None => {
                assert(crate::generator::spec_col0_spawn(out) =~= crate::generator::spec_col0_spawn(
                    g2,
                ));
            },
        }
        crate::generator::lemma_col0_finite(g1);
        crate::generator::lemma_col0_finite(out);
    }
}

/// The entry and the exit of a generation run were both spawnable at the
/// moment they were selected: each is drawn from the spawnable candidates
/// of the grid state recorded for its selection, and those candidate lists
/// are never empty under the same conditions generation itself demands.
pub proof fn lemma_entry_exit_spawnable_at_selection(
    templates: Seq<RoomView>,
    size: int,
    target: int,
    hidden: Option<ItemGenerationView>,
    visible: Option<ItemGenerationView>,
    seed: Seq<char>,
    rng0: rand_pcg::Lcg128Xsl64,
)
    requires
        1 <= size <= 65533,
        target >= 0,
        templates.len() > 0,
        forall|t: int|
            0 <= t < templates.len() ==> spec_room_wf(#[trigger] templates[t])
                && templates[t].max_side_length + 2 <= size,
        crate::generator::spec_opt_view_target(hidden) >= 0,
        crate::generator::spec_opt_view_target(visible) >= 0,
        crate::generator::spec_opt_view_target(hidden) + crate::generator::spec_opt_view_target(
            visible,
        ) < size,
    ensures
        ({
            let out = spec_generate(templates, size, target, hidden, visible, seed, rng0);
            &&& crate::grid::spec_spawnable_at(out.entry_grid, out.entry)
            &&& crate::grid::spec_spawnable_at(out.exit_grid, out.exit)
        }),
{
    let g0 = crate::generator::spec_initial_grid(size, seed);
    assert(crate::generator::spec_col0_untouched(g0, size));
    let st0 = PlaceState { grid: g0, rng: rng0, count: 0, placed: Seq::<Seq<CellView>>::empty() };
    crate::generator::lemma_place_fold_col0(st0, templates, size, target);
    let pl = spec_place_fold(st0, templates, size, target);
    let g_fill = GridView {
        size: pl.grid.size,
        cells: spec_fill_empty(pl.grid.cells),
        rng: pl.grid.rng,
    };
    let g_wall = GridView {
        size: g_fill.size,
        cells: crate::grid::spec_with_outer_wall(g_fill),
        rng: g_fill.rng,
    };
    crate::generator::lemma_col0_full_after_fill_and_wall(pl.grid, g_fill, g_wall, size);
    crate::generator::lemma_col0_nonempty_spawnable(g_wall);
    let entry_cands = crate::grid::spec_spawnable_coords(g_wall);
    let d_entry = crate::random::spec_draw(g_wall.rng, 0, entry_cands.len() as int);
    assert(0 <= d_entry < entry_cands.len());
    crate::grid::lemma_spawnable_coord_is_spawnable(g_wall, d_entry);
    let g_e = GridView {
        size: g_wall.size,
        cells: g_wall.cells,
        rng: crate::random::range_next(g_wall.rng, 0, entry_cands.len() as int),
    };
    assert(crate::generator::spec_col0_spawn(g_e) =~= crate::generator::spec_col0_spawn(g_wall));
    let hid = match hidden {
        Some(h) => {
            lemma_hidden_fold_col0(g_e, pl.rng, h, h.target_num_items);
            crate::generator::spec_hidden_fold(g_e, pl.rng, h, h.target_num_items)
        },
        None => (g_e, pl.rng),
    };
    let vis = match visible {
        Some(v) => {
            lemma_visible_fold_col0(hid.0, hid.1, v, v.target_num_items);
            crate::generator::spec_visible_fold(hid.0, hid.1, v, v.target_num_items)
        },
        None => hid,
    };
    let g_v = vis.0;
    assert(crate::generator::spec_col0_spawn(g_v).len() > 0);
    crate::generator::lemma_col0_nonempty_spawnable(g_v);
    let exit_cands = crate::grid::spec_spawnable_coords(g_v);
    let d_exit = crate::random::spec_draw(g_v.rng, 0, exit_cands.len() as int);
    assert(0 <= d_exit < exit_cands.len());
    crate::grid::lemma_spawnable_coord_is_spawnable(g_v, d_exit);
}

/// The default template mix satisfies everything a generation run demands
/// of its templates on any grid of side eighteen or more: each room is
/// well formed, and its side length leaves the required placement
/// headroom. The scenario configurations the library documents, a
/// hundred-cell grid among them, are therefore admissible by contract.
pub proof fn lemma_default_templates_admit_generation(rooms: Seq<crate::room::Room>, size: int)
    requires
        crate::templates::spec_default_rooms(rooms),
        18 <= size,
    ensures
        forall|t: int|
            0 <= t < rooms.len() ==> spec_room_wf((#[trigger] rooms[t])@) && rooms[t]@.max_side_length
                + 2 <= size,
{
    assert forall|t: int|
        0 <= t < rooms.len() implies spec_room_wf((#[trigger] rooms[t])@) && rooms[t]@.max_side_length
        + 2 <= size by {
        if t == 0 || t == 1 || t == 2 || t == 3 || t == 4 || t == 5 || t == 6 || t == 7 || t == 8 {
        }
    }
}

} // verus!
