//! The current input action and pointer target.
//!
//! The window layer feeds the simulation a single action value and the
//! unprojected pointer segment; the input pass resolves the segment
//! against the persistent raycast world into the current target entity,
//! restricted to the groups the action cares about.

use crate::block::BlockId;
use crate::collider::{GROUP_ASTEROID, GROUP_SHIP};
use crate::entity::Entity;
use crate::geom::RAY_LIMIT;
use crate::math::{vec_within, Vec3};
use crate::rcworld::{spec_raycast, RaycastWorld};
use vstd::prelude::*;

verus! {

/// What the player is currently doing.
#[derive(Debug, Clone, Copy, PartialEq, Eq, Structural)]
pub enum InputAction {
    Mining,
    Laser,
    Build(BlockId),
    Idle,
}

/// The action and the entity currently under the pointer.
pub struct InputState {
    pub action: InputAction,
    pub target: Option<Entity>,
}

impl InputState {
    /// No action, nothing targeted.
    pub fn new() -> (r: InputState)
        ensures
            r.action == InputAction::Idle,
            r.target is None,
    {
        InputState { action: InputAction::Idle, target: None }
    }
}

/// The collision groups the pointer ray is tested against for an action:
/// mining and the laser target asteroids, building targets ship blocks,
/// and an idle pointer targets nothing.
pub open spec fn spec_action_whitelist(a: InputAction) -> Option<Seq<u32>> {
    match a {
        InputAction::Mining => Some(seq![GROUP_ASTEROID]),
        InputAction::Laser => Some(seq![GROUP_ASTEROID]),
        InputAction::Build(_) => Some(seq![GROUP_SHIP]),
        InputAction::Idle => None,
    }
}

/// Resolves the pointer segment against the raycast world into the
/// current target, using the whitelist of the current action.
pub fn input_update(state: &mut InputState, rcw: &RaycastWorld, near: Vec3, far: Vec3)
    requires
        rcw.wf(),
        vec_within(near, RAY_LIMIT),
        vec_within(far, RAY_LIMIT),
    ensures
        final(state).action == old(state).action,
        final(state).target == match spec_action_whitelist(old(state).action) {
            Option::Some(wl) => spec_raycast(rcw@, wl, near, far),
            Option::None => Option::<Entity>::None,
        },
{
    let whitelist: Option<Vec<u32>> = match state.action {
        InputAction::Mining => {
            let mut wl: Vec<u32> = Vec::new();
            wl.push(GROUP_ASTEROID);
            Some(wl)
        }
        InputAction::Laser => {
            let mut wl: Vec<u32> = Vec::new();
            wl.push(GROUP_ASTEROID);
            Some(wl)
        }
        InputAction::Build(_) => {
            let mut wl: Vec<u32> = Vec::new();
            wl.push(GROUP_SHIP);
            Some(wl)
        }
        InputAction::Idle => None,
    };
    state.target = match whitelist {
        Some(wl) => {
            proof {
                match spec_action_whitelist(state.action) {
                    Option::Some(swl) => {
                        assert(wl@ =~= swl);
                    }
                    Option::None => {
                        assert(false);
                    }
                }
            }
            rcw.raycast(&wl, near, far)
        }
        None => None,
    };
}

} // verus!
