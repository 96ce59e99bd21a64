//! The generator's only reportable failure.

use vstd::prelude::*;

verus! {

/// The error generation reports. Only a missing template set is fatal;
/// every other degenerate case degrades into a still-valid map.
#[derive(Debug)]
pub struct GenerationError {
    pub message: String,
}

impl GenerationError {
    /// The error raised when generation starts with no room templates.
    pub fn no_room_paths() -> (r: Self)
        ensures
            r.message@ == "no_room_paths"@,
    {
        Self { message: "no_room_paths".to_owned() }
    }

    /// The error raised when no configured source yields a room template.
    pub fn room_templates_cannot_be_loaded() -> (r: Self)
        ensures
            r.message@ == "room_templates_cannot_be_loaded"@,
    {
        Self { message: "room_templates_cannot_be_loaded".to_owned() }
    }

    /// The error's message text.
    pub fn message(&self) -> (r: &String)
        ensures
            r@ == self.message@,
    {
        &self.message
    }
}

} // verus!
