//! Camera modes and how the player cycles through them.
use vstd::prelude::*;

verus! {

/// Camera mode
#[derive(Clone, Copy, Debug, PartialEq, Eq, Structural)]
pub enum CameraState {
    Orbital,
    /// First person
    Surface,
    ThirdPerson,
    /// Floating freecam on planet surface
    FreeCam,
}

impl Default for CameraState {
    fn default() -> (r: Self)
        ensures
            r == CameraState::Orbital,
    {
        CameraState::Orbital
    }
}

/// The mode after `state` when the player switches camera:
/// orbital, surface, third person, free camera, and back to orbital.
pub open spec fn spec_next_camera_state(state: CameraState) -> CameraState {
    match state {
        CameraState::Orbital => CameraState::Surface,
        CameraState::Surface => CameraState::ThirdPerson,
        CameraState::ThirdPerson => CameraState::FreeCam,
        CameraState::FreeCam => CameraState::Orbital,
    }
}

/// The mode after `state` when the player switches camera
pub fn next_camera_state(state: CameraState) -> (r: CameraState)
    ensures
        r == spec_next_camera_state(state),
        state == CameraState::Orbital ==> r == CameraState::Surface,
        state == CameraState::Surface ==> r == CameraState::ThirdPerson,
        state == CameraState::ThirdPerson ==> r == CameraState::FreeCam,
        state == CameraState::FreeCam ==> r == CameraState::Orbital,
{
    match state {
        CameraState::Orbital => CameraState::Surface,
        CameraState::Surface => CameraState::ThirdPerson,
        CameraState::ThirdPerson => CameraState::FreeCam,
        CameraState::FreeCam => CameraState::Orbital,
    }
}

/// Whether the cursor is confined to the window (and hidden) in `state`:
/// in every mode but orbital.
pub fn cursor_confined(state: CameraState) -> (r: bool)
    ensures
        r == (state != CameraState::Orbital),
{
    match state {
        CameraState::Orbital => false,
        CameraState::Surface | CameraState::ThirdPerson | CameraState::FreeCam => true,
    }
}

/// How the window holds the cursor.
#[derive(Clone, Copy, Debug, PartialEq, Eq, Structural)]
pub enum CursorGrab {
    /// The cursor moves freely
    Free,
    /// The cursor stays inside the window
    Confined,
    /// The cursor stays where it is
    Locked,
}

/// The cursor, and whether it is shown, after the player presses the lock
/// toggle (left Alt): a free cursor is confined and hidden, except in
/// orbital mode, where nothing changes; a held cursor is freed and shown.
pub fn toggle_cursor_lock(grab: CursorGrab, visible: bool, state: CameraState) -> (r: (CursorGrab, bool))
    ensures
        r == match grab {
            CursorGrab::Free => if state != CameraState::Orbital {
                (CursorGrab::Confined, false)
            } else {
                (CursorGrab::Free, visible)
            },
            CursorGrab::Confined | CursorGrab::Locked => (CursorGrab::Free, true),
        },
{
    match grab {
        CursorGrab::Free => {
            if cursor_confined(state) {
                (CursorGrab::Confined, false)
            } else {
                (grab, visible)
            }
        },
        CursorGrab::Confined | CursorGrab::Locked => (CursorGrab::Free, true),
    }
}

/// The camera mode a command names: "Orbital", "Surface", "ThirdPerson" or
/// "FreeCam"; none for any other name.
pub fn camera_state_from_name(name: &String) -> (r: Option<CameraState>)
    ensures
        r == if name@ == "Orbital"@ {
            Some(CameraState::Orbital)
        } else if name@ == "Surface"@ {
            Some(CameraState::Surface)
        } else if name@ == "ThirdPerson"@ {
            Some(CameraState::ThirdPerson)
        } else if name@ == "FreeCam"@ {
            Some(CameraState::FreeCam)
        } else {
            None
        },
{
    if *name == "Orbital".to_owned() {
        Some(CameraState::Orbital)
    } else if *name == "Surface".to_owned() {
        Some(CameraState::Surface)
    } else if *name == "ThirdPerson".to_owned() {
        Some(CameraState::ThirdPerson)
    } else if *name == "FreeCam".to_owned() {
        Some(CameraState::FreeCam)
    } else {
        None
    }
}

/// Law: switching camera four times comes back to the same mode, and no
/// fewer switches do; from orbital the modes run surface, third person,
/// free camera.
pub proof fn law_camera_cycle(state: CameraState)
    ensures
        spec_next_camera_state(CameraState::Orbital) == CameraState::Surface,
        spec_next_camera_state(CameraState::Surface) == CameraState::ThirdPerson,
        spec_next_camera_state(CameraState::ThirdPerson) == CameraState::FreeCam,
        spec_next_camera_state(spec_next_camera_state(spec_next_camera_state(spec_next_camera_state(state))))
            == state,
        spec_next_camera_state(state) != state,
        spec_next_camera_state(spec_next_camera_state(state)) != state,
        spec_next_camera_state(spec_next_camera_state(spec_next_camera_state(state))) != state,
{
}

} // verus!
