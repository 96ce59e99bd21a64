//! Item scatter configuration: a target count and an ordered table of
//! layers with the chance range, out of `[0, 100)`, that selects each.

use vstd::prelude::*;

use crate::layer::LayerType;

verus! {

/// One table entry: the layer placed when the rolled chance falls in the
/// half-open range `[chance_start, chance_end)`.
#[derive(Clone, Copy, Debug)]
pub struct ItemChance {
    pub layer_type: LayerType,
    pub chance_start: usize,
    pub chance_end: usize,
}

/// The mathematical value of a table entry.
pub struct ItemChanceView {
    pub layer_type: LayerType,
    pub start: int,
    pub end: int,
}

impl View for ItemChance {
    type V = ItemChanceView;

    open spec fn view(&self) -> ItemChanceView {
        ItemChanceView {
            layer_type: self.layer_type,
            start: self.chance_start as int,
            end: self.chance_end as int,
        }
    }
}

/// A scatter configuration: how many placements to attempt and the table
/// that maps each rolled chance to a layer.
#[derive(Clone, Debug)]
pub struct ItemGeneration {
    pub target_num_items: usize,
    pub item_ranges: Vec<ItemChance>,
}

/// The mathematical value of a scatter configuration.
pub struct ItemGenerationView {
    pub target_num_items: int,
    pub item_ranges: Seq<ItemChanceView>,
}

impl View for ItemGeneration {
    type V = ItemGenerationView;

    open spec fn view(&self) -> ItemGenerationView {
        ItemGenerationView {
            target_num_items: self.target_num_items as int,
            item_ranges: self.item_ranges@.map_values(|e: ItemChance| e@),
        }
    }
}

/// The layer of the first table entry whose range contains the chance,
/// scanning the first `j` entries.
pub open spec fn spec_find_range(ranges: Seq<ItemChanceView>, chance: int, j: int) -> Option<
    LayerType,
>
    decreases j,
{
    if j <= 0 {
        None
    } else {
        match spec_find_range(ranges, chance, j - 1) {
            Some(layer) => Some(layer),
            None => {
                if ranges[j - 1].start <= chance < ranges[j - 1].end {
                    Some(ranges[j - 1].layer_type)
                } else {
                    None
                }
            },
        }
    }
}

/// The layer selected by a rolled chance: the first matching table entry,
/// or none when no range contains the chance.
pub open spec fn spec_chance_layer(ranges: Seq<ItemChanceView>, chance: int) -> Option<LayerType> {
    spec_find_range(ranges, chance, ranges.len() as int)
}

/// The first table entry whose range contains the chance.
pub fn find_chance_layer(ranges: &Vec<ItemChance>, chance: usize) -> (r: Option<LayerType>)
    ensures
        r == spec_chance_layer(ranges@.map_values(|e: ItemChance| e@), chance as int),
{
    let ghost views = ranges@.map_values(|e: ItemChance| e@);
    let mut j: usize = 0;
    while j < ranges.len()
        invariant
            j <= ranges@.len(),
            views == ranges@.map_values(|e: ItemChance| e@),
            spec_find_range(views, chance as int, j as int) == None::<LayerType>,
        decreases ranges@.len() - j,
    {
        let entry = &ranges[j];
        if entry.chance_start <= chance && chance < entry.chance_end {
            proof {
                assert(views[j as int] == ranges@[j as int]@);
                assert(spec_find_range(views, chance as int, j + 1) == Some(
                    ranges@[j as int]@.layer_type,
                ));
                lemma_find_range_extends(views, chance as int, j + 1, views.len() as int);
            }
            return Some(entry.layer_type);
        }
        proof {
            assert(views[j as int] == ranges@[j as int]@);
        }
        j += 1;
    }
    None
}

/// An entry-for-entry copy of a scatter configuration.
pub fn copy_item_generation(cfg: &ItemGeneration) -> (r: ItemGeneration)
    ensures
        r@.target_num_items == cfg@.target_num_items,
        r@.item_ranges == cfg@.item_ranges,
{
    let mut item_ranges: Vec<ItemChance> = Vec::new();
    let mut i: usize = 0;
    while i < cfg.item_ranges.len()
        invariant
            i <= cfg.item_ranges@.len(),
            item_ranges@ == cfg.item_ranges@.subrange(0, i as int),
        decreases cfg.item_ranges@.len() - i,
    {
        item_ranges.push(cfg.item_ranges[i]);
        proof {
            assert(item_ranges@ =~= cfg.item_ranges@.subrange(0, i + 1));
        }
        i += 1;
    }
    proof {
        assert(item_ranges@ =~= cfg.item_ranges@);
    }
    ItemGeneration { target_num_items: cfg.target_num_items, item_ranges }
}

/// Once a scan prefix has found a layer, every longer prefix finds the
/// same one.
proof fn lemma_find_range_extends(ranges: Seq<ItemChanceView>, chance: int, j: int, k: int)
    requires
        0 <= j <= k,
        spec_find_range(ranges, chance, j) is Some,
    ensures
        spec_find_range(ranges, chance, k) == spec_find_range(ranges, chance, j),
    decreases k - j,
{
    if j < k {
        lemma_find_range_extends(ranges, chance, j, k - 1);
    }
}

} // verus!
