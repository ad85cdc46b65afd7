//! State of the settings window and the decisions of its animation controls.
use vstd::prelude::*;

verus! {

/// What the settings window edits: which passes render, and the spawner's
/// current mesh and texture choice.
#[derive(Clone, Debug)]
pub struct UiState {
    pub render_triangle: bool,
    pub render_model: bool,
    pub render_static_meshlets: bool,
    pub render_animated_meshlets: bool,
    pub spawner_selected_mesh: String,
    pub spawner_selected_texture: String,
}

impl Default for UiState {
    /// Everything renders but the test triangle; nothing is selected.
    fn default() -> (r: UiState)
        ensures
            !r.render_triangle,
            r.render_model,
            r.render_static_meshlets,
            r.render_animated_meshlets,
            r.spawner_selected_mesh@ == Seq::<char>::empty(),
            r.spawner_selected_texture@ == Seq::<char>::empty(),
    {
        UiState {
            render_triangle: false,
            render_model: true,
            render_static_meshlets: true,
            render_animated_meshlets: true,
            spawner_selected_mesh: String::new(),
            spawner_selected_texture: String::new(),
        }
    }
}

/// How many quick-transition buttons the animation window offers.
pub const QUICK_TRANSITIONS: usize = 3;

/// The animation that quick-transition button `button` (counted from 0)
/// blends to: the available animation at that position among the first
/// [`QUICK_TRANSITIONS`], unless it is the one already playing.
pub open spec fn quick_transition(available: Seq<Seq<char>>, button: int, current: Seq<char>) -> Option<Seq<char>> {
    if 0 <= button < QUICK_TRANSITIONS && button < available.len() && available[button] != current {
        Some(available[button])
    } else {
        None
    }
}

pub open spec fn names_view(v: Seq<String>) -> Seq<Seq<char>> {
    v.map_values(|s: String| s@)
}

/// The blend target of a pressed quick-transition button.
pub fn quick_transition_target(available: &Vec<String>, button: usize, current: &String) -> (r: Option<String>)
    ensures
        match r {
            Some(name) => quick_transition(names_view(available@), button as int, current@) == Some(name@),
            None => quick_transition(names_view(available@), button as int, current@) is None,
        },
{
    if button < QUICK_TRANSITIONS && button < available.len() {
        let name = &available[button];
        if *name != *current {
            return Some(name.clone());
        }
    }
    None
}

} // verus!
