//! The search form of a game.

use vstd::prelude::*;

verus! {

/// The search form for one game.
#[derive(Debug)]
pub struct FormTemplate {
    pub game: String,
}

/// The form that searches `game`.
pub fn form(game: String) -> (template: FormTemplate)
    ensures
        template.game == game,
{
    FormTemplate { game }
}

} // verus!
