//! The playable grid: a finite map from coordinates to layered cells,
//! covering `[0, size)²` after building and additionally a one-cell
//! obstruction ring after wall stamping, together with the grid's own
//! seeded random stream.
//!
//! Internally the cells live in one vector in canonical (x, then y) order,
//! which both removes any dependence on hash iteration order and makes the
//! sorted candidate collection of the random sampling functions immediate.

use vstd::prelude::*;
use vstd::arithmetic::div_mod::*;
use vstd::arithmetic::mul::*;

use crate::cell::{
    spec_add_layer, spec_bury_layer, spec_stack_obstructed, spec_stack_spawnable,
    spec_stack_walkable, spec_visible, Cell, CellView,
};
use crate::coordinate::Coordinate;
use crate::layer::LayerType;
use crate::random::{gen_range_usize, range_next, rng_from_seed, seeded_rng, spec_draw};
use crate::room::{views_of_cells, Room};

verus! {

/// The grid: its cells, its side length, and its owned random stream.
#[derive(Debug)]
pub struct Grid {
    cells: Vec<Option<Cell>>,
    size: u16,
    rng: rand_pcg::Lcg128Xsl64,
}

/// The mathematical value of a grid: the side length, the partial map from
/// coordinates to layer stacks, and the random stream's state.
#[verifier::ext_equal]
pub struct GridView {
    pub size: int,
    pub cells: Map<Coordinate, Seq<LayerType>>,
    pub rng: rand_pcg::Lcg128Xsl64,
}

/// Position of a coordinate in the canonical (x, then y) cell order of a
/// grid of the given size.
pub open spec fn spec_ord(size: int, c: Coordinate) -> int {
    (c.x + 1) * (size + 2) + (c.y + 1)
}

/// The coordinate at the given canonical position.
pub open spec fn spec_coord_of(size: int, k: int) -> Coordinate {
    Coordinate { x: (k / (size + 2) - 1) as i32, y: (k % (size + 2) - 1) as i32 }
}

/// Every coordinate a grid of the given size can hold, ring included, in
/// canonical order.
pub open spec fn spec_all_coords(size: int) -> Seq<Coordinate> {
    Seq::new(((size + 2) * (size + 2)) as nat, |k: int| spec_coord_of(size, k))
}

impl Grid {
    /// The representation invariant: the vector covers the full square
    /// `[-1, size]²` in canonical order, and each present cell records its
    /// own coordinate.
    pub closed spec fn wf(self) -> bool {
        &&& self.size <= 65533
        &&& self.cells@.len() == (self.size + 2) * (self.size + 2)
        &&& forall|c: Coordinate|
            -1 <= c.x <= self.size && -1 <= c.y <= self.size ==> match self.cells@[#[trigger] spec_ord(
                self.size as int,
                c,
            )] {
                Some(cell) => cell@.coordinate == c,
                None => true,
            }
    }
}

impl View for Grid {
    type V = GridView;

    closed spec fn view(&self) -> GridView {
        GridView {
            size: self.size as int,
            cells: Map::new(
                |c: Coordinate|
                    -1 <= c.x <= self.size && -1 <= c.y <= self.size && self.cells@[spec_ord(
                        self.size as int,
                        c,
                    )] is Some,
                |c: Coordinate| self.cells@[spec_ord(self.size as int, c)].unwrap()@.layers,
            ),
            rng: self.rng,
        }
    }
}

/// Canonical positions and coordinates are inverse to one another, and the
/// position of an in-square coordinate is in range.
pub proof fn lemma_ord_inverse(size: int, c: Coordinate)
    requires
        0 <= size <= 65533,
        -1 <= c.x <= size,
        -1 <= c.y <= size,
    ensures
        0 <= spec_ord(size, c) < (size + 2) * (size + 2),
        spec_coord_of(size, spec_ord(size, c)) == c,
{
    let n = size + 2;
    let k = spec_ord(size, c);
    lemma_fundamental_div_mod_converse(k, n, c.x + 1, c.y + 1);
    assert(0 <= (c.x + 1) * n) by {
        lemma_mul_nonnegative(c.x + 1, n);
    }
    assert((c.x + 1) * n <= (n - 1) * n) by {
        lemma_mul_inequality(c.x + 1, n - 1, n);
    }
    assert((n - 1) * n == n * n - n) by {
        lemma_mul_is_distributive_sub_other_way(n, n, 1);
    }
}

/// Every canonical position names an in-square coordinate, and is that
/// coordinate's position.
pub proof fn lemma_coord_of_ord(size: int, k: int)
    requires
        0 <= size <= 65533,
        0 <= k < (size + 2) * (size + 2),
    ensures
        -1 <= spec_coord_of(size, k).x <= size,
        -1 <= spec_coord_of(size, k).y <= size,
        spec_coord_of(size, k).x as int == k / (size + 2) - 1,
        spec_coord_of(size, k).y as int == k % (size + 2) - 1,
        spec_ord(size, spec_coord_of(size, k)) == k,
{
    let n = size + 2;
    lemma_fundamental_div_mod(k, n);
    lemma_mod_bound(k, n);
    assert(0 <= k / n <= n - 1) by {
        lemma_div_pos_is_pos(k, n);
        if k / n > n - 1 {
            assert(k / n >= n);
            assert(n * (k / n) >= n * n) by {
                lemma_mul_inequality(n, k / n, n);
                lemma_mul_is_commutative(n, k / n);
            }
        }
    }
    assert(spec_coord_of(size, k).x as int == k / n - 1);
    assert(spec_coord_of(size, k).y as int == k % n - 1);
    assert((k / n) * n == n * (k / n)) by {
        lemma_mul_is_commutative(k / n, n);
    }
}

/// The slot count of a grid square fits comfortably in 32 bits.
proof fn lemma_square_bound(size: int)
    requires
        0 <= size <= 65533,
    ensures
        0 <= (size + 2) * (size + 2) <= 4294836225,
{
    assert((size + 2) * (size + 2) <= 4294836225) by (nonlinear_arith)
        requires
            0 <= size <= 65533,
    ;
    assert((size + 2) * (size + 2) >= 0) by (nonlinear_arith)
        requires
            0 <= size,
    ;
}

impl Grid {
    /// Build a grid of one empty cell per coordinate of `[0, size)²`, with
    /// its random stream derived from the seed string.
    pub fn build(size: u16, seed: &str) -> (r: Grid)
        requires
            size <= 65533,
        ensures
            r.wf(),
            r@.size == size as int,
            r@.rng == seeded_rng(seed@),
            r@.cells == Map::<Coordinate, Seq<LayerType>>::new(
                |c: Coordinate| 0 <= c.x < size as int && 0 <= c.y < size as int,
                |c: Coordinate| Seq::<LayerType>::empty(),
            ),
    {
        let rng = rng_from_seed(seed);
        let n: usize = size as usize + 2;
        proof {
            lemma_square_bound(size as int);
        }
        let total: usize = n * n;
        let mut cells: Vec<Option<Cell>> = Vec::new();
        let mut k: usize = 0;
        while k < total
            invariant
                n == size as int + 2,
                total == (size as int + 2) * (size as int + 2),
                size <= 65533,
                k <= total,
                cells@.len() == k as int,
                forall|j: int| 0 <= j < k ==> spec_initial_slot(size as int, j, #[trigger] cells@[j]),
            decreases total - k,
        {
            let xi: usize = k / n;
            let yi: usize = k % n;
            proof {
                lemma_coord_of_ord(size as int, k as int);
            }
            let slot: Option<Cell> = if 1 <= xi && xi <= size as usize && 1 <= yi && yi
                <= size as usize {
                Some(
                    Cell {
                        coordinate: Coordinate::new(xi as i32 - 1, yi as i32 - 1),
                        layers: Vec::new(),
                    },
                )
            } else {
                None
            };
            proof {
                assert(spec_coord_of(size as int, k as int).x == xi as int - 1);
                assert(spec_coord_of(size as int, k as int).y == yi as int - 1);
                if slot is Some {
                    assert(slot.unwrap()@ =~= CellView {
                        coordinate: spec_coord_of(size as int, k as int),
                        layers: Seq::<LayerType>::empty(),
                    });
                }
            }
            cells.push(slot);
            k += 1;
        }
        let grid = Grid { cells, size, rng };
        proof {
            assert forall|c: Coordinate|
                -1 <= c.x <= size as int && -1 <= c.y <= size as int implies match grid.cells@[#[trigger] spec_ord(
                size as int,
                c,
            )] {
                Some(cell) => cell@.coordinate == c,
                None => true,
            } by {
                lemma_ord_inverse(size as int, c);
            }
            assert(grid.wf());
            let target = Map::<Coordinate, Seq<LayerType>>::new(
                |c: Coordinate| 0 <= c.x < size as int && 0 <= c.y < size as int,
                |c: Coordinate| Seq::<LayerType>::empty(),
            );
            assert forall|c: Coordinate| #[trigger]
                grid@.cells.contains_key(c) implies target.contains_key(c) && grid@.cells[c]
                == target[c] by {
                lemma_ord_inverse(size as int, c);
            }
            assert forall|c: Coordinate| #[trigger]
                target.contains_key(c) implies grid@.cells.contains_key(c) by {
                lemma_ord_inverse(size as int, c);
            }
            assert(grid@.cells =~= target);
        }
        grid
    }

    /// The side length of the playable square.
    pub fn size(&self) -> (r: u16)
        ensures
            r as int == self@.size,
    {
        self.size
    }

    /// The cell at a coordinate, when the grid covers it.
    pub fn cell(&self, coordinate: &Coordinate) -> (r: Option<&Cell>)
        requires
            self.wf(),
        ensures
            match r {
                Some(c) => self@.cells.contains_key(*coordinate) && c@.layers
                    == self@.cells[*coordinate] && c@.coordinate == *coordinate,
                None => !self@.cells.contains_key(*coordinate),
            },
    {
        if coordinate.x < -1 || coordinate.x > self.size as i32 || coordinate.y < -1
            || coordinate.y > self.size as i32 {
            return None;
        }
        proof {
            lemma_ord_inverse(self.size as int, *coordinate);
            lemma_square_bound(self.size as int);
        }
        let n: usize = self.size as usize + 2;
        let k: usize = (coordinate.x + 1) as usize * n + (coordinate.y + 1) as usize;
        proof {
            assert(k as int == spec_ord(self.size as int, *coordinate));
        }
        match &self.cells[k] {
            Some(c) => Some(c),
            None => None,
        }
    }

    /// Whether the grid covers the coordinate with a cell whose visible
    /// layer is `Empty`. A missing cell does not count as empty.
    pub fn is_cell_empty(&self, coordinate: &Coordinate) -> (r: bool)
        requires
            self.wf(),
        ensures
            r == spec_is_cell_empty(self@, *coordinate),
    {
        let cell = self.cell(coordinate);
        match cell {
            Some(c) => c.is_empty(),
            None => false,
        }
    }

    /// Push a layer onto the cell at the coordinate; a no-op when the grid
    /// does not cover it.
    pub fn add_layer(&mut self, coordinate: &Coordinate, layer: LayerType)
        requires
            old(self).wf(),
        ensures
            final(self).wf(),
            final(self)@.size == old(self)@.size,
            final(self)@.rng == old(self)@.rng,
            final(self)@.cells == spec_grid_add_layer(old(self)@, *coordinate, layer),
    {
        let ghost pre = self@;
        if coordinate.x < -1 || coordinate.x > self.size as i32 || coordinate.y < -1
            || coordinate.y > self.size as i32 {
            proof {
                assert(pre.cells =~= spec_grid_add_layer(pre, *coordinate, layer));
            }
            return;
        }
        proof {
            lemma_ord_inverse(self.size as int, *coordinate);
            lemma_square_bound(self.size as int);
        }
        let n: usize = self.size as usize + 2;
        let k: usize = (coordinate.x + 1) as usize * n + (coordinate.y + 1) as usize;
        proof {
            assert(k as int == spec_ord(self.size as int, *coordinate));
        }
        let slot = self.cells[k].take();
        match slot {
            Some(mut c) => {
                c.add_layer(layer);
                self.cells[k] = Some(c);
                proof {
                    assert(self.cells@ =~= old(self).cells@.update(k as int, self.cells@[k as int]));
                    assert forall|d: Coordinate|
                        -1 <= d.x <= self.size && -1 <= d.y <= self.size implies match self.cells@[#[trigger] spec_ord(self.size as int, d)] {
                        Some(cell) => cell@.coordinate == d,
                        None => true,
                    } by {
                        lemma_ord_inverse(self.size as int, d);
                        lemma_ord_inverse(self.size as int, *coordinate);
                    }
                    lemma_view_after_update(*old(self), *self, k as int, *coordinate);
                    assert(self@.cells =~= spec_grid_add_layer(pre, *coordinate, layer));
                }
            },
            None => {
                self.cells[k] = None;
                proof {
                    assert(self.cells@ =~= old(self).cells@);
                    assert(self@.cells =~= spec_grid_add_layer(pre, *coordinate, layer));
                }
            },
        }
    }

    /// Insert a layer at the bottom of the cell at the coordinate; a no-op
    /// when the grid does not cover it.
    pub fn bury_layer(&mut self, coordinate: &Coordinate, layer: LayerType)
        requires
            old(self).wf(),
        ensures
            final(self).wf(),
            final(self)@.size == old(self)@.size,
            final(self)@.rng == old(self)@.rng,
            final(self)@.cells == spec_grid_bury_layer(old(self)@, *coordinate, layer),
    {
        let ghost pre = self@;
        if coordinate.x < -1 || coordinate.x > self.size as i32 || coordinate.y < -1
            || coordinate.y > self.size as i32 {
            proof {
                assert(pre.cells =~= spec_grid_bury_layer(pre, *coordinate, layer));
            }
            return;
        }
        proof {
            lemma_ord_inverse(self.size as int, *coordinate);
            lemma_square_bound(self.size as int);
        }
        let n: usize = self.size as usize + 2;
        let k: usize = (coordinate.x + 1) as usize * n + (coordinate.y + 1) as usize;
        proof {
            assert(k as int == spec_ord(self.size as int, *coordinate));
        }
        let slot = self.cells[k].take();
        match slot {
            Some(mut c) => {
                c.bury_layer(&layer);
                self.cells[k] = Some(c);
                proof {
                    assert(self.cells@ =~= old(self).cells@.update(k as int, self.cells@[k as int]));
                    assert forall|d: Coordinate|
                        -1 <= d.x <= self.size && -1 <= d.y <= self.size implies match self.cells@[#[trigger] spec_ord(self.size as int, d)] {
                        Some(cell) => cell@.coordinate == d,
                        None => true,
                    } by {
                        lemma_ord_inverse(self.size as int, d);
                        lemma_ord_inverse(self.size as int, *coordinate);
                    }
                    lemma_view_after_update(*old(self), *self, k as int, *coordinate);
                    assert(self@.cells =~= spec_grid_bury_layer(pre, *coordinate, layer));
                }
            },
            None => {
                self.cells[k] = None;
                proof {
                    assert(self.cells@ =~= old(self).cells@);
                    assert(self@.cells =~= spec_grid_bury_layer(pre, *coordinate, layer));
                }
            },
        }
    }
}

/// What the grid builder places at canonical position `k`: an empty cell
/// at the position's coordinate inside the playable square, nothing
/// outside it.
pub open spec fn spec_initial_slot(size: int, k: int, slot: Option<Cell>) -> bool {
    let c = spec_coord_of(size, k);
    if 0 <= c.x < size && 0 <= c.y < size {
        slot is Some && slot.unwrap()@.coordinate == c && slot.unwrap()@.layers
            == Seq::<LayerType>::empty()
    } else {
        slot is None
    }
}

/// Whether the grid covers the coordinate with a visibly empty cell.
pub open spec fn spec_is_cell_empty(v: GridView, c: Coordinate) -> bool {
    v.cells.contains_key(c) && spec_visible(v.cells[c]) == LayerType::Empty
}

/// The cell map after pushing a layer at one coordinate.
pub open spec fn spec_grid_add_layer(v: GridView, c: Coordinate, layer: LayerType) -> Map<
    Coordinate,
    Seq<LayerType>,
> {
    if v.cells.contains_key(c) {
        v.cells.insert(c, spec_add_layer(v.cells[c], layer))
    } else {
        v.cells
    }
}

/// The cell map after burying a layer at one coordinate.
pub open spec fn spec_grid_bury_layer(v: GridView, c: Coordinate, layer: LayerType) -> Map<
    Coordinate,
    Seq<LayerType>,
> {
    if v.cells.contains_key(c) {
        v.cells.insert(c, spec_bury_layer(v.cells[c], layer))
    } else {
        v.cells
    }
}

/// Replacing the slot at one coordinate's canonical position changes the
/// grid's map at that coordinate alone.
proof fn lemma_view_after_update(pre: Grid, post: Grid, k: int, c: Coordinate)
    requires
        pre.wf(),
        post.wf(),
        pre@.size == post@.size,
        -1 <= c.x <= pre@.size,
        -1 <= c.y <= pre@.size,
        k == spec_ord(pre@.size, c),
        post.rep_cells() == pre.rep_cells().update(k, post.rep_cells()[k]),
        post.rep_cells()[k] is Some,
        post.rep_cells()[k].unwrap()@.coordinate == c,
    ensures
        forall|d: Coordinate|
            d != c ==> #[trigger] post@.cells.contains_key(d) == pre@.cells.contains_key(d),
        forall|d: Coordinate|
            d != c && pre@.cells.contains_key(d) ==> #[trigger] post@.cells[d] == pre@.cells[d],
        post@.cells.contains_key(c),
        post@.cells[c] == post.rep_cells()[k].unwrap()@.layers,
{
    assert forall|d: Coordinate|
        d != c implies #[trigger] post@.cells.contains_key(d) == pre@.cells.contains_key(d) by {
        if -1 <= d.x <= pre@.size && -1 <= d.y <= pre@.size {
            lemma_ord_inverse(pre@.size, d);
            lemma_ord_inverse(pre@.size, c);
        }
    }
    assert forall|d: Coordinate|
        d != c && pre@.cells.contains_key(d) implies #[trigger] post@.cells[d] == pre@.cells[d] by {
        lemma_ord_inverse(pre@.size, d);
        lemma_ord_inverse(pre@.size, c);
    }
    lemma_ord_inverse(pre@.size, c);
}

impl Grid {
    /// The raw slot vector, for reasoning inside this module.
    pub closed spec fn rep_cells(self) -> Seq<Option<Cell>> {
        self.cells@
    }
}

/// The stack that copying a room cell's layers one by one onto a cleared
/// cell produces: the first `j` layers pushed through the layer-adding
/// rule.
pub open spec fn spec_restack(layers: Seq<LayerType>, j: int) -> Seq<LayerType>
    decreases j,
{
    if j <= 0 {
        Seq::<LayerType>::empty()
    } else {
        spec_add_layer(spec_restack(layers, j - 1), layers[j - 1])
    }
}

/// The cell map after stamping the first `i` cells of a room: each room
/// cell whose coordinate the grid covers replaces the stack there with a
/// copy of its own, built through the layer-adding rule; room cells at
/// uncovered coordinates are dropped.
pub open spec fn spec_add_room_fold(
    cells: Map<Coordinate, Seq<LayerType>>,
    rcells: Seq<CellView>,
    i: int,
) -> Map<Coordinate, Seq<LayerType>>
    decreases i,
{
    if i <= 0 {
        cells
    } else {
        let prev = spec_add_room_fold(cells, rcells, i - 1);
        let cv = rcells[i - 1];
        if prev.contains_key(cv.coordinate) {
            prev.insert(cv.coordinate, spec_restack(cv.layers, cv.layers.len() as int))
        } else {
            prev
        }
    }
}

/// The cell map after the empty-fill pass: every covered cell whose
/// visible layer is `Empty` becomes a single open-floor layer; every other
/// cell is untouched.
pub open spec fn spec_fill_empty(cells: Map<Coordinate, Seq<LayerType>>) -> Map<
    Coordinate,
    Seq<LayerType>,
> {
    Map::new(
        |c: Coordinate| cells.contains_key(c),
        |c: Coordinate|
            if spec_visible(cells[c]) == LayerType::Empty {
                seq![LayerType::Floor]
            } else {
                cells[c]
            },
    )
}

/// Whether a coordinate lies on the one-cell obstruction ring around the
/// playable square.
pub open spec fn spec_on_ring(size: int, c: Coordinate) -> bool {
    -1 <= c.x <= size && -1 <= c.y <= size && (c.x == -1 || c.x == size || c.y == -1 || c.y
        == size)
}

/// The cell map after stamping the outer wall: every ring coordinate holds
/// exactly one obstruction layer, everything else is untouched.
pub open spec fn spec_with_outer_wall(v: GridView) -> Map<Coordinate, Seq<LayerType>> {
    Map::new(
        |c: Coordinate| v.cells.contains_key(c) || spec_on_ring(v.size, c),
        |c: Coordinate|
            if spec_on_ring(v.size, c) {
                seq![LayerType::OuterWall]
            } else {
                v.cells[c]
            },
    )
}

/// How the empty-fill pass transforms one slot.
pub open spec fn spec_filled_slot(pre: Option<Cell>, post: Option<Cell>) -> bool {
    match pre {
        Some(a) => match post {
            Some(b) => b@.coordinate == a@.coordinate && b@.layers == if spec_visible(a@.layers)
                == LayerType::Empty {
                seq![LayerType::Floor]
            } else {
                a@.layers
            },
            None => false,
        },
        None => post is None,
    }
}

/// How the wall-stamping pass transforms the slot at position `k`.
pub open spec fn spec_walled_slot(size: int, k: int, pre: Option<Cell>, post: Option<Cell>) -> bool {
    if spec_on_ring(size, spec_coord_of(size, k)) {
        post is Some && post.unwrap()@.coordinate == spec_coord_of(size, k)
            && post.unwrap()@.layers == seq![LayerType::OuterWall]
    } else {
        post == pre
    }
}

impl Grid {
    /// Stamp a room into the grid: each room cell whose coordinate the
    /// grid covers has the grid cell cleared and the room cell's whole
    /// stack copied over it. A full replace, never a merge; callers are
    /// expected to have checked non-overlap beforehand.
    pub fn add_room(&mut self, room: Room)
        requires
            old(self).wf(),
        ensures
            final(self).wf(),
            final(self)@.size == old(self)@.size,
            final(self)@.rng == old(self)@.rng,
            final(self)@.cells == spec_add_room_fold(
                old(self)@.cells,
                room@.cells,
                room@.cells.len() as int,
            ),
    {
        let ghost pre = self@;
        let ghost rcells = room@.cells;
        let mut i: usize = 0;
        while i < room.cells.len()
            invariant
                self.wf(),
                i <= rcells.len(),
                rcells == room@.cells,
                views_of_cells(room.cells@) == room@.cells,
                self@.size == pre.size,
                self@.rng == pre.rng,
                self@.cells == spec_add_room_fold(pre.cells, rcells, i as int),
            decreases rcells.len() - i,
        {
            let cell = &room.cells[i];
            proof {
                assert(room@.cells[i as int] == room.cells@[i as int]@);
            }
            let ghost before = self@;
            let ghost rep_before = self.rep_cells();
            let x = cell.coordinate.x;
            let y = cell.coordinate.y;
            if x >= -1 && x <= self.size as i32 && y >= -1 && y <= self.size as i32 {
                proof {
                    lemma_ord_inverse(self.size as int, cell.coordinate);
                    lemma_square_bound(self.size as int);
                }
                let n: usize = self.size as usize + 2;
                let k: usize = (x + 1) as usize * n + (y + 1) as usize;
                proof {
                    assert(k as int == spec_ord(self.size as int, cell.coordinate));
                }
                let slot = self.cells[k].take();
                match slot {
                    Some(mut grid_cell) => {
                        grid_cell.clear_contents();
                        let mut j: usize = 0;
                        while j < cell.layers.len()
                            invariant
                                j <= cell.layers@.len(),
                                grid_cell@.coordinate == cell@.coordinate,
                                grid_cell@.layers == spec_restack(cell@.layers, j as int),
                            decreases cell.layers@.len() - j,
                        {
                            grid_cell.add_layer(cell.layers[j]);
                            j += 1;
                        }
                        self.cells[k] = Some(grid_cell);
                        proof {
                            assert(self.cells@ =~= rep_before.update(k as int, self.cells@[k as int]));
                            assert forall|d: Coordinate|
                                -1 <= d.x <= self.size && -1 <= d.y
                                    <= self.size implies match self.cells@[#[trigger] spec_ord(
                                self.size as int,
                                d,
                            )] {
                                Some(cl) => cl@.coordinate == d,
                                None => true,
                            } by {
                                lemma_ord_inverse(self.size as int, d);
                                lemma_ord_inverse(self.size as int, cell.coordinate);
                            }
                            assert(self@.cells =~= before.cells.insert(
                                cell@.coordinate,
                                spec_restack(cell@.layers, cell@.layers.len() as int),
                            )) by {
                                assert forall|d: Coordinate|
                                    d != cell@.coordinate && -1 <= d.x <= self.size && -1 <= d.y
                                        <= self.size implies self.cells@[#[trigger] spec_ord(
                                    self.size as int,
                                    d,
                                )] == rep_before[spec_ord(self.size as int, d)] by {
                                    lemma_ord_inverse(self.size as int, d);
                                    lemma_ord_inverse(self.size as int, cell.coordinate);
                                }
                            }
                            assert(self@.cells =~= spec_add_room_fold(pre.cells, rcells, i + 1));
                        }
                    },
                    None => {
                        self.cells[k] = None;
                        proof {
                            assert(self.cells@ =~= rep_before);
                            assert(self@.cells =~= before.cells);
                            assert(!before.cells.contains_key(cell@.coordinate));
                            assert(self@.cells =~= spec_add_room_fold(pre.cells, rcells, i + 1));
                        }
                    },
                }
            } else {
                proof {
                    assert(!before.cells.contains_key(cell@.coordinate));
                    assert(self@.cells =~= spec_add_room_fold(pre.cells, rcells, i + 1));
                }
            }
            i += 1;
        }
        proof {
            assert(rcells.len() as int == room@.cells.len() as int);
        }
    }
}

impl Grid {
    /// Fill every covered cell whose visible layer is `Empty` with a
    /// single open-floor layer.
    pub fn fill_empty_cells(&mut self)
        requires
            old(self).wf(),
        ensures
            final(self).wf(),
            final(self)@.size == old(self)@.size,
            final(self)@.rng == old(self)@.rng,
            final(self)@.cells == spec_fill_empty(old(self)@.cells),
    {
        let ghost pre = self@;
        let ghost rep0 = self.rep_cells();
        let total: usize = self.cells.len();
        let mut k: usize = 0;
        while k < total
            invariant
                self.wf(),
                self.size == old(self).size,
                self.rng == old(self).rng,
                total == rep0.len(),
                rep0 == old(self).rep_cells(),
                k <= total,
                self.rep_cells().len() == rep0.len(),
                forall|j: int| 0 <= j < k ==> spec_filled_slot(rep0[j], #[trigger] self.rep_cells()[j]),
                forall|j: int| k <= j < total ==> #[trigger] self.rep_cells()[j] == rep0[j],
            decreases total - k,
        {
            let is_empty_here = match &self.cells[k] {
                Some(c) => c.is_empty(),
                None => false,
            };
            if is_empty_here {
                let ghost rep_before = self.rep_cells();
                let slot = self.cells[k].take();
                match slot {
                    Some(mut c) => {
                        c.set_to_floor();
                        self.cells[k] = Some(c);
                        proof {
                            assert(self.rep_cells() =~= rep_before.update(
                                k as int,
                                self.rep_cells()[k as int],
                            ));
                        }
                    },
                    None => {
                        self.cells[k] = None;
                        proof {
                            assert(self.rep_cells() =~= rep_before);
                        }
                    },
                }
            }
            proof {
                assert(spec_filled_slot(rep0[k as int], self.rep_cells()[k as int]));
                assert forall|d: Coordinate|
                    -1 <= d.x <= self.size && -1 <= d.y <= self.size implies match self.rep_cells()[#[trigger] spec_ord(
                    self.size as int,
                    d,
                )] {
                    Some(cl) => cl@.coordinate == d,
                    None => true,
                } by {
                    lemma_ord_inverse(self.size as int, d);
                }
            }
            k += 1;
        }
        proof {
            assert forall|c: Coordinate| #[trigger]
                self@.cells.contains_key(c) implies spec_fill_empty(pre.cells).contains_key(c)
                && self@.cells[c] == spec_fill_empty(pre.cells)[c] by {
                lemma_ord_inverse(self.size as int, c);
            }
            assert forall|c: Coordinate| #[trigger]
                spec_fill_empty(pre.cells).contains_key(c) implies self@.cells.contains_key(c) by {
                lemma_ord_inverse(self.size as int, c);
            }
            assert(self@.cells =~= spec_fill_empty(pre.cells));
        }
    }

    /// Stamp the one-cell obstruction ring around the playable square,
    /// corners included.
    pub fn create_outer_wall(&mut self)
        requires
            old(self).wf(),
        ensures
            final(self).wf(),
            final(self)@.size == old(self)@.size,
            final(self)@.rng == old(self)@.rng,
            final(self)@.cells == spec_with_outer_wall(old(self)@),
    {
        let ghost pre = self@;
        let ghost rep0 = self.rep_cells();
        let n: usize = self.size as usize + 2;
        let total: usize = self.cells.len();
        let mut k: usize = 0;
        while k < total
            invariant
                self.wf(),
                self.size == old(self).size,
                self.rng == old(self).rng,
                n == self.size as int + 2,
                total == rep0.len(),
                rep0 == old(self).rep_cells(),
                k <= total,
                self.rep_cells().len() == rep0.len(),
                forall|j: int|
                    0 <= j < k ==> spec_walled_slot(
                        self.size as int,
                        j,
                        rep0[j],
                        #[trigger] self.rep_cells()[j],
                    ),
                forall|j: int| k <= j < total ==> #[trigger] self.rep_cells()[j] == rep0[j],
            decreases total - k,
        {
            let xi: usize = k / n;
            let yi: usize = k % n;
            proof {
                lemma_square_bound(self.size as int);
                lemma_coord_of_ord(self.size as int, k as int);
            }
            let on_ring = xi == 0 || xi == self.size as usize + 1 || yi == 0 || yi
                == self.size as usize + 1;
            if on_ring {
                let ghost rep_before = self.rep_cells();
                let cell = Cell {
                    coordinate: Coordinate::new(xi as i32 - 1, yi as i32 - 1),
                    layers: vec![LayerType::OuterWall],
                };
                proof {
                    assert(cell@.coordinate == spec_coord_of(self.size as int, k as int));
                    assert(cell@.layers =~= seq![LayerType::OuterWall]);
                }
                self.cells[k] = Some(cell);
                proof {
                    assert(self.rep_cells() =~= rep_before.update(
                        k as int,
                        self.rep_cells()[k as int],
                    ));
                    assert(spec_on_ring(self.size as int, spec_coord_of(self.size as int, k as int)));
                }
            } else {
                proof {
                    assert(!spec_on_ring(
                        self.size as int,
                        spec_coord_of(self.size as int, k as int),
                    ));
                }
            }
            proof {
                assert(spec_walled_slot(self.size as int, k as int, rep0[k as int], self.rep_cells()[k as int]));
                assert forall|d: Coordinate|
                    -1 <= d.x <= self.size && -1 <= d.y <= self.size implies match self.rep_cells()[#[trigger] spec_ord(
                    self.size as int,
                    d,
                )] {
                    Some(cl) => cl@.coordinate == d,
                    None => true,
                } by {
                    lemma_ord_inverse(self.size as int, d);
                }
            }
            k += 1;
        }
        proof {
            assert forall|c: Coordinate| #[trigger]
                self@.cells.contains_key(c) implies spec_with_outer_wall(pre).contains_key(c)
                && self@.cells[c] == spec_with_outer_wall(pre)[c] by {
                lemma_ord_inverse(self.size as int, c);
            }
            assert forall|c: Coordinate| #[trigger]
                spec_with_outer_wall(pre).contains_key(c) implies self@.cells.contains_key(c) by {
                lemma_ord_inverse(self.size as int, c);
            }
            assert(self@.cells =~= spec_with_outer_wall(pre));
        }
    }
}

/// Whether the grid covers the coordinate with a walkable cell.
pub open spec fn spec_walkable_at(v: GridView, c: Coordinate) -> bool {
    v.cells.contains_key(c) && spec_stack_walkable(v.cells[c])
}

/// Whether the grid covers the coordinate with a spawnable cell.
pub open spec fn spec_spawnable_at(v: GridView, c: Coordinate) -> bool {
    v.cells.contains_key(c) && spec_stack_spawnable(v.cells[c])
}

/// Whether the grid covers the coordinate with an unobstructed cell.
pub open spec fn spec_unblocked_at(v: GridView, c: Coordinate) -> bool {
    v.cells.contains_key(c) && !spec_stack_obstructed(v.cells[c])
}

/// Every covered coordinate, in canonical (x, then y) order.
pub open spec fn spec_all_cell_coords(v: GridView) -> Seq<Coordinate> {
    spec_all_coords(v.size).filter(|c: Coordinate| v.cells.contains_key(c))
}

/// Every covered coordinate holding a spawnable cell, in canonical order.
pub open spec fn spec_spawnable_coords(v: GridView) -> Seq<Coordinate> {
    spec_all_coords(v.size).filter(|c: Coordinate| spec_spawnable_at(v, c))
}

/// Every covered coordinate holding an unobstructed cell, in canonical
/// order.
pub open spec fn spec_unblocked_coords(v: GridView) -> Seq<Coordinate> {
    spec_all_coords(v.size).filter(|c: Coordinate| spec_unblocked_at(v, c))
}

/// The orthogonal neighbours of a coordinate that the grid covers with
/// walkable cells, in the fixed query order: left, above, right, below.
pub open spec fn spec_surrounding_walkable(v: GridView, c: Coordinate) -> Seq<Coordinate> {
    let left = Coordinate { x: (c.x - 1) as i32, y: c.y };
    let above = Coordinate { x: c.x, y: (c.y + 1) as i32 };
    let right = Coordinate { x: (c.x + 1) as i32, y: c.y };
    let below = Coordinate { x: c.x, y: (c.y - 1) as i32 };
    (if spec_walkable_at(v, left) {
        seq![left]
    } else {
        Seq::<Coordinate>::empty()
    }) + (if spec_walkable_at(v, above) {
        seq![above]
    } else {
        Seq::<Coordinate>::empty()
    }) + (if spec_walkable_at(v, right) {
        seq![right]
    } else {
        Seq::<Coordinate>::empty()
    }) + (if spec_walkable_at(v, below) {
        seq![below]
    } else {
        Seq::<Coordinate>::empty()
    })
}

/// Extending a filtered coordinate prefix by one element keeps or appends
/// it according to the predicate.
proof fn lemma_coord_filter_step(s: Seq<Coordinate>, pred: spec_fn(Coordinate) -> bool, i: int)
    requires
        0 <= i < s.len(),
    ensures
        s.subrange(0, i + 1).filter(pred) == if pred(s[i]) {
            s.subrange(0, i).filter(pred).push(s[i])
        } else {
            s.subrange(0, i).filter(pred)
        },
{
    reveal(Seq::filter);
    let longer = s.subrange(0, i + 1);
    assert(longer.drop_last() =~= s.subrange(0, i));
    assert(longer.last() == s[i]);
}

/// Filtering an empty coordinate prefix yields nothing.
proof fn lemma_coord_filter_empty(s: Seq<Coordinate>, pred: spec_fn(Coordinate) -> bool)
    ensures
        s.subrange(0, 0).filter(pred) == Seq::<Coordinate>::empty(),
{
    reveal(Seq::filter);
    assert(s.subrange(0, 0) =~= Seq::<Coordinate>::empty());
}

/// Every element of a filtered coordinate sequence is an element of the
/// sequence it was filtered from.
proof fn lemma_filter_elem_of(s: Seq<Coordinate>, pred: spec_fn(Coordinate) -> bool, i: int)
    requires
        0 <= i < s.filter(pred).len(),
    ensures
        s.contains(s.filter(pred)[i]),
    decreases s.len(),
{
    reveal(Seq::filter);
    if s.len() > 0 {
        let rest = s.drop_last().filter(pred);
        if pred(s.last()) && i == rest.len() {
            assert(s.filter(pred)[i] == s.last());
            assert(s[s.len() - 1] == s.last());
        } else {
            lemma_filter_elem_of(s.drop_last(), pred, i);
            let c = s.drop_last().filter(pred)[i];
            let j = choose|j: int| 0 <= j < s.drop_last().len() && s.drop_last()[j] == c;
            assert(s[j] == c);
        }
    }
}

/// Every spawnable candidate coordinate lies inside the covered square,
/// ring included.
pub proof fn lemma_spawnable_coord_bounds(v: GridView, i: int)
    requires
        0 <= v.size <= 65533,
        0 <= i < spec_spawnable_coords(v).len(),
    ensures
        -1 <= spec_spawnable_coords(v)[i].x <= v.size,
        -1 <= spec_spawnable_coords(v)[i].y <= v.size,
{
    let all = spec_all_coords(v.size);
    let pred = |c: Coordinate| spec_spawnable_at(v, c);
    lemma_filter_elem_of(all, pred, i);
    let c = spec_spawnable_coords(v)[i];
    let k = choose|k: int| 0 <= k < all.len() && all[k] == c;
    lemma_coord_of_ord(v.size, k);
}

/// Every spawnable candidate is indeed spawnable in the grid it was
/// collected from.
pub proof fn lemma_spawnable_coord_is_spawnable(v: GridView, i: int)
    requires
        0 <= i < spec_spawnable_coords(v).len(),
    ensures
        spec_spawnable_at(v, spec_spawnable_coords(v)[i]),
{
    let all = spec_all_coords(v.size);
    let pred = |c: Coordinate| spec_spawnable_at(v, c);
    all.lemma_filter_pred(pred, i);
}

/// Which cells a sampling function draws from.
enum CandidateKind {
    Covered,
    Spawnable,
    Unblocked,
}

impl Grid {
    /// The covered coordinates whose cells satisfy the requested test, in
    /// canonical order: every covered coordinate, only the spawnable ones,
    /// or only the unobstructed ones.
    fn collect_candidates(&self, kind: CandidateKind) -> (r: Vec<Coordinate>)
        requires
            self.wf(),
        ensures
            r@ == match kind {
                CandidateKind::Covered => spec_all_cell_coords(self@),
                CandidateKind::Spawnable => spec_spawnable_coords(self@),
                CandidateKind::Unblocked => spec_unblocked_coords(self@),
            },
    {
        let ghost pred = match kind {
            CandidateKind::Covered => |c: Coordinate| self@.cells.contains_key(c),
            CandidateKind::Spawnable => |c: Coordinate| spec_spawnable_at(self@, c),
            CandidateKind::Unblocked => |c: Coordinate| spec_unblocked_at(self@, c),
        };
        let n: usize = self.size as usize + 2;
        proof {
            lemma_square_bound(self.size as int);
        }
        let total: usize = n * n;
        let mut out: Vec<Coordinate> = Vec::new();
        let mut k: usize = 0;
        proof {
            lemma_coord_filter_empty(spec_all_coords(self@.size), pred);
        }
        while k < total
            invariant
                self.wf(),
                n == self.size as int + 2,
                total == (self.size as int + 2) * (self.size as int + 2),
                k <= total,
                spec_all_coords(self@.size).len() == total,
                pred == match kind {
                    CandidateKind::Covered => |c: Coordinate| self@.cells.contains_key(c),
                    CandidateKind::Spawnable => |c: Coordinate| spec_spawnable_at(self@, c),
                    CandidateKind::Unblocked => |c: Coordinate| spec_unblocked_at(self@, c),
                },
                out@ == spec_all_coords(self@.size).subrange(0, k as int).filter(pred),
            decreases total - k,
        {
            let xi: usize = k / n;
            let yi: usize = k % n;
            proof {
                lemma_coord_of_ord(self.size as int, k as int);
                lemma_coord_filter_step(spec_all_coords(self@.size), pred, k as int);
                assert(spec_all_coords(self@.size)[k as int] == spec_coord_of(
                    self.size as int,
                    k as int,
                ));
            }
            let coordinate = Coordinate::new(xi as i32 - 1, yi as i32 - 1);
            proof {
                assert(coordinate == spec_coord_of(self.size as int, k as int));
                assert(self@.cells.contains_key(coordinate) == (self.rep_cells()[k as int] is Some));
                if self.rep_cells()[k as int] is Some {
                    assert(self@.cells[coordinate] == self.rep_cells()[k as int].unwrap()@.layers);
                }
            }
            let qualifies = match &self.cells[k] {
                Some(c) => {
                    match kind {
                        CandidateKind::Covered => true,
                        CandidateKind::Spawnable => c.is_spawnable(),
                        CandidateKind::Unblocked => !c.is_obstructed(),
                    }
                },
                None => false,
            };
            if qualifies {
                out.push(coordinate);
                proof {
                    assert(out@ =~= spec_all_coords(self@.size).subrange(0, k + 1).filter(pred));
                }
            } else {
                proof {
                    assert(out@ =~= spec_all_coords(self@.size).subrange(0, k + 1).filter(pred));
                }
            }
            k += 1;
        }
        proof {
            let all = spec_all_coords(self@.size);
            assert(all.subrange(0, all.len() as int) =~= all);
        }
        out
    }

    /// A uniformly random covered coordinate, drawn from the grid's own
    /// stream over the canonically sorted candidate list.
    pub fn random_coordinate(&mut self) -> (r: Option<Coordinate>)
        requires
            old(self).wf(),
            spec_all_cell_coords(old(self)@).len() > 0,
        ensures
            final(self).wf(),
            final(self)@.size == old(self)@.size,
            final(self)@.cells == old(self)@.cells,
            final(self)@.rng == range_next(
                old(self)@.rng,
                0,
                spec_all_cell_coords(old(self)@).len() as int,
            ),
            r == Some(
                spec_all_cell_coords(old(self)@)[spec_draw(
                    old(self)@.rng,
                    0,
                    spec_all_cell_coords(old(self)@).len() as int,
                )],
            ),
    {
        let coordinates = self.collect_candidates(CandidateKind::Covered);
        let index: usize = gen_range_usize(&mut self.rng, 0, coordinates.len());
        proof {
            assert(self@.cells =~= old(self)@.cells);
        }
        Some(coordinates[index])
    }

    /// A uniformly random unblocked coordinate: drawn from the grid's own
    /// stream over the canonically sorted coordinates whose cells are not
    /// obstructed.
    pub fn random_unblocked_coordinate(&mut self) -> (r: Option<Coordinate>)
        requires
            old(self).wf(),
            spec_unblocked_coords(old(self)@).len() > 0,
        ensures
            final(self).wf(),
            final(self)@.size == old(self)@.size,
            final(self)@.cells == old(self)@.cells,
            final(self)@.rng == range_next(
                old(self)@.rng,
                0,
                spec_unblocked_coords(old(self)@).len() as int,
            ),
            r == Some(
                spec_unblocked_coords(old(self)@)[spec_draw(
                    old(self)@.rng,
                    0,
                    spec_unblocked_coords(old(self)@).len() as int,
                )],
            ),
    {
        let coordinates = self.collect_candidates(CandidateKind::Unblocked);
        let index: usize = gen_range_usize(&mut self.rng, 0, coordinates.len());
        proof {
            assert(self@.cells =~= old(self)@.cells);
        }
        Some(coordinates[index])
    }

    /// A uniformly random coordinate among the spawnable cells, drawn from
    /// the grid's own stream over the canonically sorted candidate list.
    pub fn random_spawnable_coordinate(&mut self) -> (r: Option<Coordinate>)
        requires
            old(self).wf(),
            spec_spawnable_coords(old(self)@).len() > 0,
        ensures
            final(self).wf(),
            final(self)@.size == old(self)@.size,
            final(self)@.cells == old(self)@.cells,
            final(self)@.rng == range_next(
                old(self)@.rng,
                0,
                spec_spawnable_coords(old(self)@).len() as int,
            ),
            r == Some(
                spec_spawnable_coords(old(self)@)[spec_draw(
                    old(self)@.rng,
                    0,
                    spec_spawnable_coords(old(self)@).len() as int,
                )],
            ),
    {
        let spawnable_cells = self.collect_candidates(CandidateKind::Spawnable);
        let index: usize = gen_range_usize(&mut self.rng, 0, spawnable_cells.len());
        proof {
            assert(self@.cells =~= old(self)@.cells);
        }
        Some(spawnable_cells[index])
    }

    /// The orthogonal neighbours of the coordinate that exist and are
    /// walkable: the sole expansion function used by pathfinding.
    pub fn surrounding_walkable_coordinates(&self, coordinate: &Coordinate) -> (r: Vec<Coordinate>)
        requires
            self.wf(),
            i32::MIN < coordinate.x < i32::MAX,
            i32::MIN < coordinate.y < i32::MAX,
        ensures
            r@ == spec_surrounding_walkable(self@, *coordinate),
    {
        let mut out: Vec<Coordinate> = Vec::new();
        let left = Coordinate::new(coordinate.x - 1, coordinate.y);
        let above = Coordinate::new(coordinate.x, coordinate.y + 1);
        let right = Coordinate::new(coordinate.x + 1, coordinate.y);
        let below = Coordinate::new(coordinate.x, coordinate.y - 1);
        if self.is_walkable_at(&left) {
            out.push(left);
        }
        if self.is_walkable_at(&above) {
            out.push(above);
        }
        if self.is_walkable_at(&right) {
            out.push(right);
        }
        if self.is_walkable_at(&below) {
            out.push(below);
        }
        proof {
            assert(out@ =~= spec_surrounding_walkable(self@, *coordinate));
        }
        out
    }

    /// Whether the grid covers the coordinate with a walkable cell.
    fn is_walkable_at(&self, coordinate: &Coordinate) -> (r: bool)
        requires
            self.wf(),
        ensures
            r == spec_walkable_at(self@, *coordinate),
    {
        match self.cell(coordinate) {
            Some(c) => c.is_walkable(),
            None => false,
        }
    }

    /// Every cell the grid covers, in canonical (x, then y) order.
    pub fn cells(&self) -> (r: Vec<&Cell>)
        requires
            self.wf(),
        ensures
            r@.len() == spec_all_cell_coords(self@).len(),
            forall|i: int|
                0 <= i < r@.len() ==> (#[trigger] r@[i])@.coordinate == spec_all_cell_coords(
                    self@,
                )[i] && r@[i]@.layers == self@.cells[spec_all_cell_coords(self@)[i]],
    {
        let ghost pred = |c: Coordinate| self@.cells.contains_key(c);
        let n: usize = self.size as usize + 2;
        proof {
            lemma_square_bound(self.size as int);
            lemma_coord_filter_empty(spec_all_coords(self@.size), pred);
        }
        let total: usize = n * n;
        let mut out: Vec<&Cell> = Vec::new();
        let mut k: usize = 0;
        while k < total
            invariant
                self.wf(),
                n == self.size as int + 2,
                total == (self.size as int + 2) * (self.size as int + 2),
                k <= total,
                spec_all_coords(self@.size).len() == total,
                pred == (|c: Coordinate| self@.cells.contains_key(c)),
                out@.len() == spec_all_coords(self@.size).subrange(0, k as int).filter(pred).len(),
                forall|i: int|
                    0 <= i < out@.len() ==> (#[trigger] out@[i])@.coordinate == spec_all_coords(
                        self@.size,
                    ).subrange(0, k as int).filter(pred)[i] && out@[i]@.layers
                        == self@.cells[spec_all_coords(self@.size).subrange(0, k as int).filter(
                        pred,
                    )[i]],
            decreases total - k,
        {
            proof {
                lemma_coord_of_ord(self.size as int, k as int);
                lemma_coord_filter_step(spec_all_coords(self@.size), pred, k as int);
                assert(spec_all_coords(self@.size)[k as int] == spec_coord_of(
                    self.size as int,
                    k as int,
                ));
                let c = spec_coord_of(self.size as int, k as int);
                assert(self@.cells.contains_key(c) == (self.rep_cells()[k as int] is Some));
                if self.rep_cells()[k as int] is Some {
                    assert(self@.cells[c] == self.rep_cells()[k as int].unwrap()@.layers);
                }
            }
            match &self.cells[k] {
                Some(c) => {
                    out.push(c);
                },
                None => {},
            }
            k += 1;
        }
        proof {
            let all = spec_all_coords(self@.size);
            assert(all.subrange(0, all.len() as int) =~= all);
        }
        out
    }
}

/// The character rendered for one coordinate: the canonical character of
/// the visible layer, or the `Empty` character where no cell exists.
pub open spec fn spec_display_char(v: GridView, x: int, y: int) -> char {
    let c = Coordinate { x: x as i32, y: y as i32 };
    if v.cells.contains_key(c) {
        crate::layer::spec_char_of_layer(spec_visible(v.cells[c]))
    } else {
        '_'
    }
}

/// One rendered row: the characters for x from -1 through size, then a
/// newline.
pub open spec fn spec_display_row(v: GridView, y: int) -> Seq<char> {
    Seq::new(
        (v.size + 3) as nat,
        |i: int|
            if i == v.size + 2 {
                '\n'
            } else {
                spec_display_char(v, i - 1, y)
            },
    )
}

/// The first `t` rendered rows, top-down: y runs from size down to -1.
pub open spec fn spec_display_fold(v: GridView, t: int) -> Seq<char>
    decreases t,
{
    if t <= 0 {
        Seq::<char>::empty()
    } else {
        spec_display_fold(v, t - 1) + spec_display_row(v, v.size - (t - 1))
    }
}

/// The full text rendering of the grid: one character per cell, ring
/// included, rows top-down, each ended by a newline.
pub open spec fn spec_display(v: GridView) -> Seq<char> {
    spec_display_fold(v, v.size + 2)
}

impl Grid {
    /// A text rendering of every cell's visible layer, one character per
    /// cell including the outer ring, rows top-down.
    pub fn top_layer_display(&self) -> (r: String)
        requires
            self.wf(),
        ensures
            r@ == spec_display(self@),
    {
        let mut text = String::new();
        let size_i = self.size as i32;
        let mut t: usize = 0;
        while t < self.size as usize + 2
            invariant
                self.wf(),
                size_i == self@.size,
                t <= self@.size + 2,
                text@ == spec_display_fold(self@, t as int),
            decreases self@.size + 2 - t,
        {
            let y: i32 = size_i - t as i32;
            let ghost row_start = text@;
            let mut xi: usize = 0;
            while xi < self.size as usize + 2
                invariant
                    self.wf(),
                    size_i == self@.size,
                    t <= self@.size + 2,
                    y == self@.size - t,
                    xi <= self@.size + 2,
                    text@ == row_start + spec_display_row(self@, y as int).subrange(0, xi as int),
                decreases self@.size + 2 - xi,
            {
                let x: i32 = xi as i32 - 1;
                let coordinate = Coordinate::new(x, y);
                let layer = match self.cell(&coordinate) {
                    Some(c) => c.visible_layer(),
                    None => LayerType::Empty,
                };
                let ch: char = char::from(layer);
                proof {
                    assert(ch == spec_display_char(self@, x as int, y as int)) by {
                        assert(Coordinate { x: (x as int) as i32, y: (y as int) as i32 }
                            == coordinate);
                    }
                }
                crate::layer::push_char(&mut text, ch);
                proof {
                    assert(text@ =~= row_start + spec_display_row(self@, y as int).subrange(
                        0,
                        xi + 1,
                    ));
                }
                xi += 1;
            }
            crate::layer::push_char(&mut text, '\n');
            proof {
                assert(text@ =~= row_start + spec_display_row(self@, y as int));
                assert(text@ =~= spec_display_fold(self@, t + 1));
            }
            t += 1;
        }
        text
    }
}

} // verus!
