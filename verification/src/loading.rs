//! Where room templates come from. Reading template text off a disk tree
//! is an external collaborator's job: the core only consumes the rooms it
//! yields. This module holds the plain description of one such source.

use vstd::prelude::*;

verus! {

/// A named location that template text is loaded from: a directory whose
/// files each hold one ASCII-art template.
#[derive(Clone, Debug)]
pub struct RoomPaths {
    pub name: String,
    pub template_path: String,
}

impl RoomPaths {
    /// A source from its name and directory path.
    pub fn new(name: String, template_path: String) -> (r: Self)
        ensures
            r.name@ == name@,
            r.template_path@ == template_path@,
    {
        Self { name, template_path }
    }
}

} // verus!
