//! The parameters of one simulation step.
use vstd::prelude::*;
use crate::material::MaterialPropsWGSL;
use crate::single::Single;

verus! {

/// What a step is told: the measured quantities of the frame, the tool in use and the material
/// table.
#[derive(Clone, Copy, Debug, PartialEq, Eq)]
pub struct SimParams {
    pub dt: Single,
    pub mouse_active: Single,
    pub mouse_x: Single,
    pub mouse_y: Single,
    pub grab_radius: Single,
    pub scene_scale: Single,
    pub damping_factor: Single,
    pub gravity: Single,
    pub grid_offset_x: Single,
    pub grid_offset_y: Single,
    pub force_reconnect: Single,
    pub apply_charge: Single,
    pub active_count: u32,
    pub drag_mode: u32,
    pub mouse_vx: Single,
    pub mouse_vy: Single,
    pub rect_min_x: Single,
    pub rect_min_y: Single,
    pub rect_max_x: Single,
    pub rect_max_y: Single,
    pub allow_dynamic_link: u32,
    pub mod_mat: u32,
    pub mod_node_inv_mass: Single,
    pub mod_node_grav: Single,
    pub mod_temp: Single,
    pub is_paused_flag: u32,
    pub num_gravity_sources: u32,
    pub allow_surface_tension: u32,
    pub gravity_sources: [Single; 32],
    pub materials: [MaterialPropsWGSL; 16],
}

} // verus!
