//! One grid position and its ordered stack of layers. The bottom of the
//! stack is the most buried layer; the top is the visible one.

use vstd::prelude::*;

use crate::coordinate::Coordinate;
use crate::layer::{
    spec_bury_capable, spec_obstructing, spec_spawnable, spec_walkable, LayerType,
};

verus! {

/// An ordered stack of layers at one coordinate.
#[derive(PartialEq, Eq, Clone, Debug)]
pub struct Cell {
    pub coordinate: Coordinate,
    pub layers: Vec<LayerType>,
}

/// The mathematical value of a cell: its point and its layer stack.
#[verifier::ext_equal]
pub struct CellView {
    pub coordinate: Coordinate,
    pub layers: Seq<LayerType>,
}

impl View for Cell {
    type V = CellView;

    open spec fn view(&self) -> CellView {
        CellView { coordinate: self.coordinate, layers: self.layers@ }
    }
}

/// The visible layer of a stack: its last element, or `Empty` for an empty
/// stack.
pub open spec fn spec_visible(layers: Seq<LayerType>) -> LayerType {
    if layers.len() == 0 {
        LayerType::Empty
    } else {
        layers.last()
    }
}

/// The bottom layer of a stack, or `Empty` for an empty stack.
pub open spec fn spec_bottom(layers: Seq<LayerType>) -> LayerType {
    if layers.len() == 0 {
        LayerType::Empty
    } else {
        layers[0]
    }
}

/// A stack is walkable when its visible layer permits traversal.
pub open spec fn spec_stack_walkable(layers: Seq<LayerType>) -> bool {
    spec_walkable(spec_visible(layers))
}

/// A stack is spawnable when it is non-empty and every layer in it, buried
/// or visible, is spawnable.
pub open spec fn spec_stack_spawnable(layers: Seq<LayerType>) -> bool {
    layers.len() > 0 && forall|i: int| 0 <= i < layers.len() ==> spec_spawnable(#[trigger] layers[i])
}

/// A stack is obstructed when it is empty or any of its layers, buried or
/// visible, is obstructing.
pub open spec fn spec_stack_obstructed(layers: Seq<LayerType>) -> bool {
    layers.len() == 0 || exists|i: int| 0 <= i < layers.len() && spec_obstructing(#[trigger] layers[i])
}

/// The effect of pushing a layer onto a stack: `Empty` is dropped, and a
/// room wall pushed onto a stack with no room floor brings its floor along
/// beneath it, so that no wall ever floats without ground.
pub open spec fn spec_add_layer(layers: Seq<LayerType>, layer: LayerType) -> Seq<LayerType> {
    if layer == LayerType::Empty {
        layers
    } else if layer == LayerType::RoomWall && !layers.contains(LayerType::RoomFloor) {
        layers.push(LayerType::RoomFloor).push(LayerType::RoomWall)
    } else {
        layers.push(layer)
    }
}

/// The effect of burying a layer: `Empty` is dropped, anything else is
/// inserted at the bottom of the stack.
pub open spec fn spec_bury_layer(layers: Seq<LayerType>, layer: LayerType) -> Seq<LayerType> {
    if layer == LayerType::Empty {
        layers
    } else {
        layers.insert(0, layer)
    }
}

/// A well-formed stack never stores the `Empty` layer.
pub open spec fn spec_stack_wf(layers: Seq<LayerType>) -> bool {
    !layers.contains(LayerType::Empty)
}

/// Whether any bury-capable layer occurs strictly above the given stack
/// position.
pub open spec fn spec_buried_above(layers: Seq<LayerType>, pos: int) -> bool {
    exists|i: int| pos < i < layers.len() && spec_bury_capable(#[trigger] layers[i])
}

/// Whether a layer in the stack counts as buried: some bury-capable layer
/// appears above its first occurrence. A layer absent from the stack has
/// no answer, and a bury-capable layer is never itself buried.
pub open spec fn spec_underground(layers: Seq<LayerType>, layer: LayerType) -> Option<bool> {
    if !layers.contains(layer) {
        None
    } else if spec_bury_capable(layer) {
        Some(false)
    } else {
        Some(spec_buried_above(layers, layers.index_of_first(layer).unwrap()))
    }
}

/// First index of `target` in `layers`, as the exec counterpart of
/// `Seq::index_of_first`.
fn first_position(layers: &Vec<LayerType>, target: LayerType) -> (r: Option<usize>)
    ensures
        match r {
            Some(i) => layers@.index_of_first(target) == Some(i as int) && i < layers@.len(),
            None => layers@.index_of_first(target) == None::<int>,
        },
{
    proof {
        layers@.index_of_first_ensures(target);
    }
    let mut i: usize = 0;
    while i < layers.len()
        invariant
            i <= layers@.len(),
            forall|j: int| 0 <= j < i ==> layers@[j] != target,
            match layers@.index_of_first(target) {
                Some(k) => 0 <= k < layers@.len() && layers@[k] == target,
                None => !layers@.contains(target),
            },
        decreases layers@.len() - i,
    {
        if layers[i] == target {
            proof {
                layers@.index_of_first_ensures(target);
                if layers@.index_of_first(target) != Some(i as int) {
                    let k = layers@.index_of_first(target).unwrap();
                    assert(layers@.contains(target)) by {
                        assert(layers@[i as int] == target);
                    }
                    assert(0 <= k < i ==> layers@[k] != target);
                    assert(k > i ==> layers@[i as int] != target);
                }
            }
            return Some(i);
        }
        i += 1;
    }
    proof {
        layers@.index_of_first_ensures(target);
        if layers@.index_of_first(target) is Some {
            let k = layers@.index_of_first(target).unwrap();
            assert(layers@[k] != target);
        }
    }
    None
}

impl Cell {
    /// The stack, bottom first.
    pub fn layers(&self) -> (r: &Vec<LayerType>)
        ensures
            r@ == self@.layers,
    {
        &self.layers
    }

    /// The cell's position.
    pub fn coordinate(&self) -> (r: &Coordinate)
        ensures
            *r == self@.coordinate,
    {
        &self.coordinate
    }

    /// Drop every layer, leaving the stack empty.
    pub fn clear_contents(&mut self)
        ensures
            final(self)@.coordinate == old(self)@.coordinate,
            final(self)@.layers == Seq::<LayerType>::empty(),
    {
        self.layers.clear()
    }

    /// Whether nothing is visible here.
    pub fn is_empty(&self) -> (r: bool)
        ensures
            r == (spec_visible(self@.layers) == LayerType::Empty),
    {
        self.visible_layer() == LayerType::Empty
    }

    /// Reset the stack to a single open-floor layer.
    pub fn set_to_floor(&mut self)
        ensures
            final(self)@.coordinate == old(self)@.coordinate,
            final(self)@.layers == seq![LayerType::Floor],
    {
        self.layers.clear();
        self.layers.push(LayerType::Floor);
        proof {
            assert(final(self)@.layers =~= seq![LayerType::Floor]);
        }
    }

    /// Whether the cell sits at the given point.
    pub fn is_at_location(&self, x: i32, y: i32) -> (r: bool)
        ensures
            r == (self@.coordinate.x == x && self@.coordinate.y == y),
    {
        self.coordinate.x == x && self.coordinate.y == y
    }

    /// The topmost layer, or `Empty` for an empty stack.
    pub fn visible_layer(&self) -> (r: LayerType)
        ensures
            r == spec_visible(self@.layers),
    {
        if self.layers.len() == 0 {
            LayerType::Empty
        } else {
            self.layers[self.layers.len() - 1]
        }
    }

    /// Whether the given layer is buried beneath a bury-capable layer:
    /// whether any such layer sits anywhere above its first occurrence.
    /// `None` when the layer does not appear in the stack at all.
    pub fn is_layer_underground(&self, layer: &LayerType) -> (r: Option<bool>)
        ensures
            r == spec_underground(self@.layers, *layer),
    {
        proof {
            self.layers@.index_of_first_ensures(*layer);
        }
        let n = self.layers.len();
        let layer_position = match first_position(&self.layers, *layer) {
            Some(it) => it,
            _ => {
                return None;
            },
        };
        proof {
            assert(self@.layers[layer_position as int] == *layer);
            assert(self@.layers.contains(*layer));
        }
        if *layer == LayerType::Floor || *layer == LayerType::RoomWall || *layer
            == LayerType::RoomFloor {
            return Some(false);
        }
        let mut k: usize = layer_position + 1;
        while k < n
            invariant
                n == self@.layers.len(),
                layer_position < k,
                k <= n,
                self@.layers.contains(*layer),
                !spec_bury_capable(*layer),
                self@.layers.index_of_first(*layer) == Some(layer_position as int),
                forall|j: int|
                    layer_position < j < k ==> !spec_bury_capable(#[trigger] self@.layers[j]),
            decreases n - k,
        {
            let candidate = self.layers[k];
            if candidate == LayerType::Floor || candidate == LayerType::RoomWall || candidate
                == LayerType::RoomFloor {
                proof {
                    assert(spec_buried_above(self@.layers, layer_position as int)) by {
                        assert(layer_position < k);
                        assert((k as int) < self@.layers.len());
                        assert(spec_bury_capable(self@.layers[k as int]));
                    }
                }
                return Some(true);
            }
            k += 1;
        }
        proof {
            if spec_buried_above(self@.layers, layer_position as int) {
                let i = choose|i: int|
                    layer_position < i < self@.layers.len() && spec_bury_capable(
                        #[trigger] self@.layers[i],
                    );
                assert(!spec_bury_capable(self@.layers[i]));
            }
        }
        Some(false)
    }

    /// The bottom layer of the stack, or `Empty` when there is none.
    pub fn cell_type(&self) -> (r: LayerType)
        ensures
            r == spec_bottom(self@.layers),
    {
        if self.layers.len() == 0 {
            return LayerType::Empty;
        }
        self.layers[0]
    }

    /// Whether a door layer appears anywhere in the stack.
    pub fn contains_door(&self) -> (r: bool)
        ensures
            r == self@.layers.contains(LayerType::Door),
    {
        let mut i: usize = 0;
        while i < self.layers.len()
            invariant
                i <= self@.layers.len(),
                forall|j: int| 0 <= j < i ==> self@.layers[j] != LayerType::Door,
            decreases self@.layers.len() - i,
        {
            if self.layers[i] == LayerType::Door {
                proof {
                    assert(self@.layers[i as int] == LayerType::Door);
                }
                return true;
            }
            i += 1;
        }
        false
    }

    /// The layer at the given stack position, bottom first.
    pub fn cell_type_at_layer(&self, layer_index: usize) -> (r: Option<LayerType>)
        ensures
            r == if layer_index < self@.layers.len() {
                Some(self@.layers[layer_index as int])
            } else {
                None::<LayerType>
            },
    {
        if layer_index < self.layers.len() {
            return Some(self.layers[layer_index]);
        }
        None
    }

    /// Push a layer onto the stack. Pushing `Empty` is a no-op, and a room
    /// wall brings a room floor along beneath it when none is present.
    pub fn add_layer(&mut self, layer: LayerType)
        ensures
            final(self)@.coordinate == old(self)@.coordinate,
            final(self)@.layers == spec_add_layer(old(self)@.layers, layer),
    {
        if layer != LayerType::Empty {
            if layer == LayerType::RoomWall && !self.has_room_floor() {
                self.layers.push(LayerType::RoomFloor);
            }
            self.layers.push(layer);
        }
    }

    /// Whether a room-floor layer appears anywhere in the stack.
    fn has_room_floor(&self) -> (r: bool)
        ensures
            r == self@.layers.contains(LayerType::RoomFloor),
    {
        let mut i: usize = 0;
        while i < self.layers.len()
            invariant
                i <= self@.layers.len(),
                forall|j: int| 0 <= j < i ==> self@.layers[j] != LayerType::RoomFloor,
            decreases self@.layers.len() - i,
        {
            if self.layers[i] == LayerType::RoomFloor {
                proof {
                    assert(self@.layers[i as int] == LayerType::RoomFloor);
                }
                return true;
            }
            i += 1;
        }
        false
    }

    /// Insert a layer at the bottom of the stack, beneath everything
    /// already there. Burying `Empty` is a no-op.
    pub fn bury_layer(&mut self, layer: &LayerType)
        ensures
            final(self)@.coordinate == old(self)@.coordinate,
            final(self)@.layers == spec_bury_layer(old(self)@.layers, *layer),
    {
        if *layer != LayerType::Empty {
            self.layers.insert(0, *layer);
        }
    }

    /// Whether the visible layer permits traversal.
    pub fn is_walkable(&self) -> (r: bool)
        ensures
            r == spec_stack_walkable(self@.layers),
    {
        self.visible_layer().is_walkable()
    }

    /// Whether the whole stack is pure floor, so that entries, exits and
    /// items may be placed here.
    pub fn is_spawnable(&self) -> (r: bool)
        ensures
            r == spec_stack_spawnable(self@.layers),
    {
        if self.layers.len() == 0 {
            return false;
        }
        let mut i: usize = 0;
        while i < self.layers.len()
            invariant
                i <= self@.layers.len(),
                forall|j: int| 0 <= j < i ==> spec_spawnable(#[trigger] self@.layers[j]),
            decreases self@.layers.len() - i,
        {
            if !self.layers[i].is_spawnable() {
                return false;
            }
            i += 1;
        }
        true
    }

    /// Whether any layer in the stack, buried or visible, obstructs the
    /// cell. An empty stack counts as obstructed.
    pub fn is_obstructed(&self) -> (r: bool)
        ensures
            r == spec_stack_obstructed(self@.layers),
    {
        if self.layers.len() == 0 {
            return true;
        }
        let mut i: usize = 0;
        while i < self.layers.len()
            invariant
                i <= self@.layers.len(),
                forall|j: int| 0 <= j < i ==> !spec_obstructing(#[trigger] self@.layers[j]),
            decreases self@.layers.len() - i,
        {
            if self.layers[i].is_completely_obstructed() {
                proof {
                    assert(spec_obstructing(self@.layers[i as int]));
                }
                return true;
            }
            i += 1;
        }
        false
    }

    /// A cell at the given point whose stack holds the one given layer,
    /// or nothing when the layer is `Empty`.
    pub fn new(x: i32, y: i32, cell_type: LayerType) -> (r: Self)
        ensures
            r@.coordinate == (Coordinate { x, y }),
            r@.layers == if cell_type != LayerType::Empty {
                seq![cell_type]
            } else {
                Seq::<LayerType>::empty()
            },
    {
        let mut layers: Vec<LayerType> = Vec::new();
        if cell_type != LayerType::Empty {
            layers.push(cell_type);
            proof {
                assert(layers@ =~= seq![cell_type]);
            }
        }
        Self { coordinate: Coordinate::new(x, y), layers }
    }

    /// A cell on the diagonal, holding the one given layer.
    pub fn splat(value: i32, cell_type: LayerType) -> (r: Self)
        ensures
            r@.coordinate == (Coordinate { x: value, y: value }),
            r@.layers == if cell_type != LayerType::Empty {
                seq![cell_type]
            } else {
                Seq::<LayerType>::empty()
            },
    {
        Self::new(value, value, cell_type)
    }

    /// A room-wall cell on the diagonal.
    pub fn splatted_room_wall(value: i32) -> (r: Self)
        ensures
            r@.coordinate == (Coordinate { x: value, y: value }),
            r@.layers == seq![LayerType::RoomWall],
    {
        Self::splat(value, LayerType::RoomWall)
    }

    /// A room-wall cell at the given point.
    pub fn room_wall(x: i32, y: i32) -> (r: Self)
        ensures
            r@.coordinate == (Coordinate { x, y }),
            r@.layers == seq![LayerType::RoomWall],
    {
        Self::new(x, y, LayerType::RoomWall)
    }

    /// A room-floor cell on the diagonal.
    pub fn splatted_room_floor(value: i32) -> (r: Self)
        ensures
            r@.coordinate == (Coordinate { x: value, y: value }),
            r@.layers == seq![LayerType::RoomFloor],
    {
        Self::splat(value, LayerType::RoomFloor)
    }

    /// A room-floor cell at the given point.
    pub fn room_floor(x: i32, y: i32) -> (r: Self)
        ensures
            r@.coordinate == (Coordinate { x, y }),
            r@.layers == seq![LayerType::RoomFloor],
    {
        Self::new(x, y, LayerType::RoomFloor)
    }

    /// A door cell at the given point.
    pub fn room_door(x: i32, y: i32) -> (r: Self)
        ensures
            r@.coordinate == (Coordinate { x, y }),
            r@.layers == seq![LayerType::Door],
    {
        Self::new(x, y, LayerType::Door)
    }

    /// An outer-wall cell at the given point.
    pub fn outer_wall(x: i32, y: i32) -> (r: Self)
        ensures
            r@.coordinate == (Coordinate { x, y }),
            r@.layers == seq![LayerType::OuterWall],
    {
        Self::new(x, y, LayerType::OuterWall)
    }

    /// A cell at the given point with nothing in its stack.
    pub fn empty_cell(x: i32, y: i32) -> (r: Self)
        ensures
            r@.coordinate == (Coordinate { x, y }),
            r@.layers == Seq::<LayerType>::empty(),
    {
        Self::new(x, y, LayerType::Empty)
    }

    /// Replace the whole stack with the one given layer.
    pub fn set_cell_type(&mut self, cell_type: LayerType)
        ensures
            final(self)@.coordinate == old(self)@.coordinate,
            final(self)@.layers == seq![cell_type],
    {
        if self.layers.len() > 0 {
            self.layers.clear();
        }
        self.layers.push(cell_type);
        proof {
            assert(final(self)@.layers =~= seq![cell_type]);
        }
    }

    /// Append the given layers to the stack, as they are.
    pub fn add_cell_layers(&mut self, layers: &[LayerType])
        ensures
            final(self)@.coordinate == old(self)@.coordinate,
            final(self)@.layers == old(self)@.layers + layers@,
    {
        let mut i: usize = 0;
        while i < layers.len()
            invariant
                i <= layers@.len(),
                self@.coordinate == old(self)@.coordinate,
                self@.layers == old(self)@.layers + layers@.subrange(0, i as int),
            decreases layers@.len() - i,
        {
            self.layers.push(layers[i]);
            proof {
                assert(self@.layers =~= old(self)@.layers + layers@.subrange(0, i + 1));
            }
            i += 1;
        }
        proof {
            assert(self@.layers =~= old(self)@.layers + layers@);
        }
    }

    /// A copy of this stack placed at another point.
    pub fn translate(&self, x: i32, y: i32) -> (r: Self)
        ensures
            r@.coordinate == (Coordinate { x, y }),
            r@.layers == self@.layers,
    {
        Self { coordinate: Coordinate::new(x, y), layers: copy_layers(&self.layers) }
    }
}

/// An element-for-element copy of a layer stack.
pub fn copy_layers(layers: &Vec<LayerType>) -> (r: Vec<LayerType>)
    ensures
        r@ == layers@,
{
    let mut out: Vec<LayerType> = Vec::new();
    let mut i: usize = 0;
    while i < layers.len()
        invariant
            i <= layers@.len(),
            out@ == layers@.subrange(0, i as int),
        decreases layers@.len() - i,
    {
        out.push(layers[i]);
        proof {
            assert(out@ =~= layers@.subrange(0, i + 1));
        }
        i += 1;
    }
    proof {
        assert(out@ =~= layers@);
    }
    out
}

/// The empty stack stores nothing, so in particular no `Empty` layer.
pub proof fn lemma_empty_stack_wf()
    ensures
        spec_stack_wf(Seq::<LayerType>::empty()),
{
    if Seq::<LayerType>::empty().contains(LayerType::Empty) {
        let k = choose|k: int|
            0 <= k < Seq::<LayerType>::empty().len() && Seq::<LayerType>::empty()[k]
                == LayerType::Empty;
    }
}

/// Pushing a layer keeps a stack well formed and never shrinks it.
pub proof fn lemma_add_layer_wf(layers: Seq<LayerType>, layer: LayerType)
    ensures
        spec_stack_wf(layers) ==> spec_stack_wf(spec_add_layer(layers, layer)),
        spec_add_layer(layers, layer).len() >= layers.len(),
        layers.len() > 0 || layer != LayerType::Empty ==> spec_add_layer(layers, layer).len() > 0,
{
    let out = spec_add_layer(layers, layer);
    if layer != LayerType::Empty && spec_stack_wf(layers) {
        if out.contains(LayerType::Empty) {
            let k = choose|k: int| 0 <= k < out.len() && out[k] == LayerType::Empty;
            if k < layers.len() {
                assert(layers.contains(LayerType::Empty));
            }
        }
    }
}

/// A spawnable stack is walkable: its visible layer is one of the floor
/// layers, which permit traversal.
pub proof fn lemma_spawnable_stack_is_walkable(layers: Seq<LayerType>)
    ensures
        spec_stack_spawnable(layers) ==> spec_stack_walkable(layers),
{
    if spec_stack_spawnable(layers) {
        assert(spec_spawnable(layers[layers.len() - 1]));
    }
}

} // verus!
