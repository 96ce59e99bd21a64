//! Step-by-step construction of a generator, with the documented defaults
//! filled in for everything left unset.

use vstd::prelude::*;

use crate::generator::Generator;
use crate::items::ItemGeneration;
use crate::templates::RoomTemplates;

verus! {

/// An under-construction generator configuration.
#[derive(Clone)]
pub struct GeneratorBuilder {
    grid_size: Option<u16>,
    target_number_rooms: Option<u16>,
    room_templates: Option<RoomTemplates>,
    seed: Option<String>,
    target_hidden_items: Option<ItemGeneration>,
    target_items: Option<ItemGeneration>,
}

impl Default for GeneratorBuilder {
    /// A builder with nothing set.
    fn default() -> (r: GeneratorBuilder)
        ensures
            r.spec_grid_size() is None,
            r.spec_target_number_rooms() is None,
            r.spec_seed() is None,
            r.spec_room_templates() is None,
            r.spec_target_hidden_items() is None,
            r.spec_target_items() is None,
    {
        GeneratorBuilder {
            grid_size: None,
            target_number_rooms: None,
            room_templates: None,
            seed: None,
            target_hidden_items: None,
            target_items: None,
        }
    }
}

/// A fresh builder with nothing set.
pub fn builder() -> (r: GeneratorBuilder)
    ensures
        r.spec_grid_size() is None,
        r.spec_target_number_rooms() is None,
        r.spec_seed() is None,
        r.spec_room_templates() is None,
        r.spec_target_hidden_items() is None,
        r.spec_target_items() is None,
{
    GeneratorBuilder::default()
}

impl GeneratorBuilder {
    /// The configured grid size, when one was set.
    pub closed spec fn spec_grid_size(&self) -> Option<u16> {
        self.grid_size
    }

    /// The configured room target, when one was set.
    pub closed spec fn spec_target_number_rooms(&self) -> Option<u16> {
        self.target_number_rooms
    }

    /// The configured seed, when one was set.
    pub closed spec fn spec_seed(&self) -> Option<String> {
        self.seed
    }

    /// The configured template mix, when one was set.
    pub closed spec fn spec_room_templates(&self) -> Option<RoomTemplates> {
        self.room_templates
    }

    /// The configured hidden-item scatter, when one was set.
    pub closed spec fn spec_target_hidden_items(&self) -> Option<ItemGeneration> {
        self.target_hidden_items
    }

    /// The configured visible-item scatter, when one was set.
    pub closed spec fn spec_target_items(&self) -> Option<ItemGeneration> {
        self.target_items
    }

    /// Build the generator: unset fields fall back to seed "tdlg", grid
    /// size 100 and 25 target rooms, with the built-in templates.
    pub fn build(&self) -> (r: Generator)
        ensures
            r.grid_size == match self.spec_grid_size() {
                Some(v) => v,
                None => 100u16,
            },
            r.target_number_rooms == match self.spec_target_number_rooms() {
                Some(v) => v,
                None => 25u16,
            },
            r.seed@ == match self.spec_seed() {
                Some(v) => v@,
                None => "tdlg"@,
            },
            r.rng == crate::random::seeded_rng(r.seed@),
            match self.spec_room_templates() {
                Some(v) => r.room_templates.rooms@.len() == v.rooms@.len() && forall|i: int|
                    0 <= i < v.rooms@.len() ==> (#[trigger] r.room_templates.rooms@[i])@
                        == v.rooms@[i]@,
                None => crate::templates::spec_default_rooms(r.room_templates.rooms@),
            },
            match self.spec_target_hidden_items() {
                Some(v) => r.target_hidden_items is Some
                    && r.target_hidden_items.unwrap()@.target_num_items == v@.target_num_items
                    && r.target_hidden_items.unwrap()@.item_ranges == v@.item_ranges,
                None => r.target_hidden_items is None,
            },
            match self.spec_target_items() {
                Some(v) => r.target_items is Some && r.target_items.unwrap()@.target_num_items
                    == v@.target_num_items && r.target_items.unwrap()@.item_ranges
                    == v@.item_ranges,
                None => r.target_items is None,
            },
    {
        let seed: String = match &self.seed {
            Some(v) => clone_string(v),
            None => "tdlg".to_owned(),
        };
        let grid_size: u16 = match self.grid_size {
            Some(v) => v,
            None => 100,
        };
        let target_number_rooms: u16 = match self.target_number_rooms {
            Some(v) => v,
            None => 25,
        };
        let room_templates: RoomTemplates = match &self.room_templates {
            Some(v) => RoomTemplates { rooms: crate::room::copy_rooms(&v.rooms) },
            None => RoomTemplates::default(),
        };
        let target_hidden_items = match &self.target_hidden_items {
            Some(v) => Some(crate::items::copy_item_generation(v)),
            None => None,
        };
        let target_items = match &self.target_items {
            Some(v) => Some(crate::items::copy_item_generation(v)),
            None => None,
        };
        Generator::new(
            seed.as_str(),
            grid_size,
            target_number_rooms,
            target_items,
            target_hidden_items,
            room_templates,
        )
    }

    /// Set the seed string.
    pub fn seed(&mut self, seed: &str)
        ensures
            final(self).spec_seed() is Some,
            final(self).spec_seed().unwrap()@ == seed@,
            final(self).spec_grid_size() == old(self).spec_grid_size(),
            final(self).spec_target_number_rooms() == old(self).spec_target_number_rooms(),
            final(self).spec_room_templates() == old(self).spec_room_templates(),
            final(self).spec_target_hidden_items() == old(self).spec_target_hidden_items(),
            final(self).spec_target_items() == old(self).spec_target_items(),
    {
        self.seed = Some(seed.to_owned());
    }

    /// Set the grid size.
    pub fn grid_size(&mut self, grid_size: u16)
        ensures
            final(self).spec_grid_size() == Some(grid_size),
            final(self).spec_seed() == old(self).spec_seed(),
            final(self).spec_target_number_rooms() == old(self).spec_target_number_rooms(),
            final(self).spec_room_templates() == old(self).spec_room_templates(),
            final(self).spec_target_hidden_items() == old(self).spec_target_hidden_items(),
            final(self).spec_target_items() == old(self).spec_target_items(),
    {
        self.grid_size = Some(grid_size);
    }

    /// Set the target room count.
    pub fn target_number_rooms(&mut self, target_number_rooms: u16)
        ensures
            final(self).spec_target_number_rooms() == Some(target_number_rooms),
            final(self).spec_seed() == old(self).spec_seed(),
            final(self).spec_grid_size() == old(self).spec_grid_size(),
            final(self).spec_room_templates() == old(self).spec_room_templates(),
            final(self).spec_target_hidden_items() == old(self).spec_target_hidden_items(),
            final(self).spec_target_items() == old(self).spec_target_items(),
    {
        self.target_number_rooms = Some(target_number_rooms);
    }

    /// Set the room template mix.
    pub fn room_templates(&mut self, room_templates: RoomTemplates)
        ensures
            final(self).spec_room_templates() == Some(room_templates),
            final(self).spec_seed() == old(self).spec_seed(),
            final(self).spec_grid_size() == old(self).spec_grid_size(),
            final(self).spec_target_number_rooms() == old(self).spec_target_number_rooms(),
            final(self).spec_target_hidden_items() == old(self).spec_target_hidden_items(),
            final(self).spec_target_items() == old(self).spec_target_items(),
    {
        self.room_templates = Some(room_templates);
    }

    /// Set the hidden-item scatter configuration.
    pub fn target_hidden_items(&mut self, target_hidden_items: ItemGeneration)
        ensures
            final(self).spec_target_hidden_items() == Some(target_hidden_items),
            final(self).spec_seed() == old(self).spec_seed(),
            final(self).spec_grid_size() == old(self).spec_grid_size(),
            final(self).spec_target_number_rooms() == old(self).spec_target_number_rooms(),
            final(self).spec_room_templates() == old(self).spec_room_templates(),
            final(self).spec_target_items() == old(self).spec_target_items(),
    {
        self.target_hidden_items = Some(target_hidden_items);
    }

    /// Set the visible-item scatter configuration.
    pub fn target_items(&mut self, target_items: ItemGeneration)
        ensures
            final(self).spec_target_items() == Some(target_items),
            final(self).spec_seed() == old(self).spec_seed(),
            final(self).spec_grid_size() == old(self).spec_grid_size(),
            final(self).spec_target_number_rooms() == old(self).spec_target_number_rooms(),
            final(self).spec_room_templates() == old(self).spec_room_templates(),
            final(self).spec_target_hidden_items() == old(self).spec_target_hidden_items(),
    {
        self.target_items = Some(target_items);
    }
}

/// A character-for-character copy of a string.
fn clone_string(s: &String) -> (r: String)
    ensures
        r@ == s@,
{
    s.as_str().to_owned()
}

} // verus!
