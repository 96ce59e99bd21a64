//! The closed set of tile-layer classifications and their fixed predicates,
//! together with the character codec used by template text and rendering.

use vstd::prelude::*;

verus! {

/// One semantic tile classification, stackable within a cell.
#[derive(PartialEq, Eq, Copy, Clone, Debug, Hash, Structural)]
pub enum LayerType {
    CommonItem,
    Door,
    Empty,
    Entrance,
    Exit,
    ExoticItem,
    Floor,
    Note,
    OuterWall,
    Path,
    RareItem,
    RoomFloor,
    RoomWall,
    Rubble,
    Structure,
    Table,
    UncommonItem,
}

/// The fixed table of layers whose topmost presence permits traversal.
pub open spec fn spec_walkable(layer: LayerType) -> bool {
    match layer {
        LayerType::Door => true,
        LayerType::RoomFloor => true,
        LayerType::Floor => true,
        LayerType::Rubble => true,
        LayerType::CommonItem => true,
        LayerType::UncommonItem => true,
        LayerType::RareItem => true,
        LayerType::ExoticItem => true,
        LayerType::Note => true,
        LayerType::Path => true,
        LayerType::Entrance => true,
        LayerType::Exit => true,
        _ => false,
    }
}

/// Only the pure floor layers are spawnable.
pub open spec fn spec_spawnable(layer: LayerType) -> bool {
    layer == LayerType::RoomFloor || layer == LayerType::Floor
}

/// Layers that block a cell completely wherever they appear in its stack.
pub open spec fn spec_obstructing(layer: LayerType) -> bool {
    layer == LayerType::OuterWall || layer == LayerType::Empty
}

/// Layers that count as covering ground: a layer sitting below one of these
/// in a cell's stack is buried.
pub open spec fn spec_bury_capable(layer: LayerType) -> bool {
    layer == LayerType::Floor || layer == LayerType::RoomWall || layer == LayerType::RoomFloor
}

/// Decoding of template characters. Unmapped characters fall back to
/// `Empty`; that fallback is deliberate and lossy, not an error.
pub open spec fn spec_layer_of_char(c: char) -> LayerType {
    match c {
        'c' => LayerType::CommonItem,
        'D' => LayerType::Door,
        'd' => LayerType::Door,
        '_' => LayerType::Empty,
        'o' => LayerType::Entrance,
        'x' => LayerType::Exit,
        'i' => LayerType::ExoticItem,
        '·' => LayerType::Floor,
        'n' => LayerType::Note,
        '*' => LayerType::OuterWall,
        '♦' => LayerType::Path,
        'r' => LayerType::RareItem,
        '=' => LayerType::RoomFloor,
        'f' => LayerType::RoomFloor,
        '|' => LayerType::RoomWall,
        'w' => LayerType::RoomWall,
        '&' => LayerType::Rubble,
        's' => LayerType::Structure,
        '¬' => LayerType::Table,
        'u' => LayerType::UncommonItem,
        _ => LayerType::Empty,
    }
}

/// Canonical rendering character of each layer: the exact inverse of the
/// canonical half of the decoding table.
pub open spec fn spec_char_of_layer(layer: LayerType) -> char {
    match layer {
        LayerType::CommonItem => 'c',
        LayerType::Door => 'D',
        LayerType::Empty => '_',
        LayerType::Entrance => 'o',
        LayerType::Exit => 'x',
        LayerType::ExoticItem => 'i',
        LayerType::Floor => '·',
        LayerType::Note => 'n',
        LayerType::OuterWall => '*',
        LayerType::Path => '♦',
        LayerType::RareItem => 'r',
        LayerType::RoomFloor => '=',
        LayerType::RoomWall => '|',
        LayerType::Rubble => '&',
        LayerType::Structure => 's',
        LayerType::Table => '¬',
        LayerType::UncommonItem => 'u',
    }
}

impl LayerType {
    /// Whether this layer permits traversal when it is the visible layer.
    pub fn is_walkable(&self) -> (r: bool)
        ensures
            r == spec_walkable(*self),
    {
        match *self {
            LayerType::Door => true,
            LayerType::RoomFloor => true,
            LayerType::Floor => true,
            LayerType::Rubble => true,
            LayerType::CommonItem => true,
            LayerType::UncommonItem => true,
            LayerType::RareItem => true,
            LayerType::ExoticItem => true,
            LayerType::Note => true,
            LayerType::Path => true,
            LayerType::Entrance => true,
            LayerType::Exit => true,
            _ => false,
        }
    }

    /// Whether this layer is eligible ground for entry, exit and item
    /// placement.
    pub fn is_spawnable(&self) -> (r: bool)
        ensures
            r == spec_spawnable(*self),
    {
        match *self {
            LayerType::RoomFloor => true,
            LayerType::Floor => true,
            _ => false,
        }
    }

    /// Whether this layer blocks its cell no matter where it sits in the
    /// stack.
    pub fn is_completely_obstructed(&self) -> (r: bool)
        ensures
            r == spec_obstructing(*self),
    {
        match *self {
            LayerType::OuterWall => true,
            LayerType::Empty => true,
            _ => false,
        }
    }

    /// The fixed set of layers that bury whatever sits beneath them.
    pub fn can_bury_other_layers() -> (r: Vec<LayerType>)
        ensures
            r@ == seq![LayerType::Floor, LayerType::RoomWall, LayerType::RoomFloor],
            forall|layer: LayerType| spec_bury_capable(layer) <==> r@.contains(layer),
    {
        let buriers = vec![LayerType::Floor, LayerType::RoomWall, LayerType::RoomFloor];
        proof {
            assert(buriers@ =~= seq![LayerType::Floor, LayerType::RoomWall, LayerType::RoomFloor]);
            assert forall|layer: LayerType| spec_bury_capable(layer) <==> buriers@.contains(layer) by {
                if spec_bury_capable(layer) {
                    if layer == LayerType::Floor {
                        assert(buriers@[0] == layer);
                    } else if layer == LayerType::RoomWall {
                        assert(buriers@[1] == layer);
                    } else {
                        assert(buriers@[2] == layer);
                    }
                }
            }
        }
        buriers
    }
}

impl core::convert::From<char> for LayerType {
    /// Decode one template character, with the `Empty` fallback.
    fn from(c: char) -> (r: LayerType) {
        match c {
            'c' => LayerType::CommonItem,
            'D' => LayerType::Door,
            'd' => LayerType::Door,
            '_' => LayerType::Empty,
            'o' => LayerType::Entrance,
            'x' => LayerType::Exit,
            'i' => LayerType::ExoticItem,
            '·' => LayerType::Floor,
            'n' => LayerType::Note,
            '*' => LayerType::OuterWall,
            '♦' => LayerType::Path,
            'r' => LayerType::RareItem,
            '=' => LayerType::RoomFloor,
            'f' => LayerType::RoomFloor,
            '|' => LayerType::RoomWall,
            'w' => LayerType::RoomWall,
            '&' => LayerType::Rubble,
            's' => LayerType::Structure,
            '¬' => LayerType::Table,
            'u' => LayerType::UncommonItem,
            _ => LayerType::Empty,
        }
    }
}

impl vstd::std_specs::convert::FromSpecImpl<char> for LayerType {
    open spec fn obeys_from_spec() -> bool {
        true
    }

    open spec fn from_spec(c: char) -> LayerType {
        spec_layer_of_char(c)
    }
}

impl core::convert::From<LayerType> for char {
    /// Render one layer as its canonical character.
    fn from(layer: LayerType) -> (r: char) {
        match layer {
            LayerType::CommonItem => 'c',
            LayerType::Door => 'D',
            LayerType::Empty => '_',
            LayerType::Entrance => 'o',
            LayerType::Exit => 'x',
            LayerType::ExoticItem => 'i',
            LayerType::Floor => '·',
            LayerType::Note => 'n',
            LayerType::OuterWall => '*',
            LayerType::Path => '♦',
            LayerType::RareItem => 'r',
            LayerType::RoomFloor => '=',
            LayerType::RoomWall => '|',
            LayerType::Rubble => '&',
            LayerType::Structure => 's',
            LayerType::Table => '¬',
            LayerType::UncommonItem => 'u',
        }
    }
}

impl vstd::std_specs::convert::FromSpecImpl<LayerType> for char {
    open spec fn obeys_from_spec() -> bool {
        true
    }

    open spec fn from_spec(layer: LayerType) -> char {
        spec_char_of_layer(layer)
    }
}

/// Relies on `String::push`: it appends exactly the given character.
/// Rendering functions build their output through this single wrapper.
#[verifier::external_body]
pub(crate) fn push_char(text: &mut String, c: char)
    ensures
        final(text)@ == old(text)@.push(c),
{
    text.push(c)
}

/// Spawnable layers permit traversal: the spawnable set is a subset of the
/// walkable set.
pub proof fn lemma_spawnable_layer_is_walkable(layer: LayerType)
    ensures
        spec_spawnable(layer) ==> spec_walkable(layer),
{
}

/// Encoding then decoding any layer yields that layer back.
pub proof fn lemma_codec_round_trip(layer: LayerType)
    ensures
        spec_layer_of_char(spec_char_of_layer(layer)) == layer,
{
}

} // verus!
