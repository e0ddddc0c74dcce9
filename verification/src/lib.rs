//! A small 2D shape engine: the verified part holds the input and window-loop
//! decisions, the resource handle managers, and the index topology of the
//! generated meshes.
pub mod engine;
pub mod events;
pub mod images;
pub mod main_loop;
pub mod managers;
pub mod mesh;
pub mod mesh_loader;
pub mod shape_pipeline;

use vstd::prelude::*;

verus! {

/// Multisample anti-aliasing setting of the window surface.
#[derive(Clone, Copy, Debug, PartialEq, Eq, Structural)]
pub enum MSAA {
    Disabled,
    Enable4x,
}

/// Presentation mode of the window surface.
#[derive(Clone, Copy, Debug, PartialEq, Eq, Structural)]
pub enum VSyncMode {
    AutoVsync,
    AutoNoVsync,
}

/// The presentation mode that a vsync flag selects.
pub open spec fn spec_vsync_mode(enabled: bool) -> VSyncMode {
    if enabled { VSyncMode::AutoVsync } else { VSyncMode::AutoNoVsync }
}

/// Chooses the presentation mode for a vsync flag: on waits for the display,
/// off presents as soon as a frame is ready.
pub fn vsync_mode(enabled: bool) -> (mode: VSyncMode)
    ensures
        mode == spec_vsync_mode(enabled),
{
    match enabled {
        true => VSyncMode::AutoVsync,
        false => VSyncMode::AutoNoVsync,
    }
}

/// Vsync on waits for the display; vsync off presents every frame as soon
/// as it is ready.
pub proof fn law_vsync_flag_selects_mode(enabled: bool)
    ensures
        enabled ==> spec_vsync_mode(enabled) == VSyncMode::AutoVsync,
        !enabled ==> spec_vsync_mode(enabled) == VSyncMode::AutoNoVsync,
{
}

} // verus!
