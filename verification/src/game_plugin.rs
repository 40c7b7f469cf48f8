use vstd::prelude::*;

use crate::model::GamePlugin;

verus! {

/// Builds the plugin that installs the game.
pub fn new() -> (plugin: GamePlugin)
    ensures
        plugin == GamePlugin,
{
    GamePlugin
}

} // verus!
