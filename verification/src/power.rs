//! Energy management: the decisions of the power manager.
//!
//! | situation                                   | rendering        | simulation      |
//! |---------------------------------------------|------------------|-----------------|
//! | window hidden, screen locked, display asleep | none (paused)    | none (paused)   |
//! | mains power, awake                           | 60 fps (vsync)   | real time       |
//! | on battery, Low Power Mode, `--low-power`    | 30 fps           | real time       |
//! | wallpaper, nobody looking ("sleeping")       | 9 fps            | slow motion     |
//! | wallpaper, low battery, sleeping             | one frame / 2 s  | slower motion   |
//!
//! The smooth quantities (the wake-up ramp, the frame rate between the
//! sleeping and the awake one) are the caller's; here stand the discrete
//! choices that they feed.
use vstd::prelude::*;

verus! {

/// What the power manager lets the program do.
#[derive(Clone, Copy, Debug, PartialEq, Eq, Structural)]
pub enum Mode {
    Awake,
    /// Wallpaper nobody is looking at: slow motion, low frame rate.
    Sleeping,
    /// Sleeping on a low battery: an almost still picture.
    Still,
    /// Nothing visible: no rendering, no simulation.
    Paused,
}

/// The thermal state (`NSProcessInfo.thermalState`) at which the frame rate
/// is halved: critical.
pub open spec fn critical_thermal() -> u8 {
    3
}

/// Whether the awake frame rate is halved: with `--low-power`, on battery,
/// in Low Power Mode, or when the machine is critically hot.
pub open spec fn spec_reduced(low_power: bool, on_battery: bool, low_power_mode: bool, thermal: u8) -> bool {
    low_power || on_battery || low_power_mode || thermal >= critical_thermal()
}

/// Frame rate when awake: 30 on battery, in Low Power Mode, when the machine
/// is critically hot or with `--low-power`; 60 otherwise.
pub fn awake_fps(low_power: bool, on_battery: bool, low_power_mode: bool, thermal: u8) -> (fps: u32)
    ensures
        fps == if spec_reduced(low_power, on_battery, low_power_mode, thermal) {
            30u32
        } else {
            60u32
        },
{
    if low_power || on_battery || low_power_mode || thermal >= 3 {
        30
    } else {
        60
    }
}

/// Low battery: discharging and below the threshold (the caller compares the
/// charge with it; `None` where the charge is unknown).
pub fn low_battery(on_battery: bool, charge_below_threshold: Option<bool>) -> (low: bool)
    ensures
        low == (on_battery && charge_below_threshold == Some(true)),
{
    on_battery && match charge_below_threshold {
        Some(b) => b,
        None => false,
    }
}

/// Whether the program may fall asleep: as a wallpaper without `--no-sleep`,
/// or when the sleeping modes are being exercised.
pub fn can_sleep(wallpaper: bool, no_sleep: bool, testing: bool) -> (r: bool)
    ensures
        r == (wallpaper && !no_sleep || testing),
{
    wallpaper && !no_sleep || testing
}

/// The mode: paused when nothing is visible; otherwise awake while any
/// wakefulness remains; asleep, still on a low battery.
pub open spec fn spec_mode(paused: bool, stirring: bool, low: bool) -> Mode {
    if paused {
        Mode::Paused
    } else if stirring {
        Mode::Awake
    } else if low {
        Mode::Still
    } else {
        Mode::Sleeping
    }
}

/// Picks the mode. `paused`: the window is hidden or the screen is off;
/// `stirring`: the eased wakefulness is above zero; `low`: low battery.
pub fn pick_mode(paused: bool, stirring: bool, low: bool) -> (m: Mode)
    ensures
        m == spec_mode(paused, stirring, low),
{
    if paused {
        Mode::Paused
    } else if stirring {
        Mode::Awake
    } else if low {
        Mode::Still
    } else {
        Mode::Sleeping
    }
}

/// Whether the 3D scene is rendered this frame: never when paused; in the
/// still mode only when a frame is due; otherwise always.
pub open spec fn spec_render(mode: Mode, due: bool) -> bool {
    match mode {
        Mode::Paused => false,
        Mode::Still => due,
        _ => true,
    }
}

pub fn renders(mode: Mode, due: bool) -> (r: bool)
    ensures
        r == spec_render(mode, due),
{
    match mode {
        Mode::Paused => false,
        Mode::Still => due,
        _ => true,
    }
}

/// Whether the simulation clock runs.
pub fn simulates(mode: Mode) -> (r: bool)
    ensures
        r == (mode != Mode::Paused),
{
    match mode {
        Mode::Paused => false,
        _ => true,
    }
}

/// Whether the event loop only wakes up now and then (paused) rather than
/// running continuously.
pub fn reactive_loop(mode: Mode) -> (r: bool)
    ensures
        r == (mode == Mode::Paused),
{
    match mode {
        Mode::Paused => true,
        _ => false,
    }
}

/// Whether a camera draws: the presenter shows the last image unless paused
/// or the scene is drawn straight into the window; the scene cameras draw
/// when the scene is rendered.
pub open spec fn spec_camera_active(presenter: bool, mode: Mode, direct: bool, render: bool) -> bool {
    if presenter {
        mode != Mode::Paused && !direct
    } else {
        render
    }
}

pub fn camera_active(presenter: bool, mode: Mode, direct: bool, render: bool) -> (r: bool)
    ensures
        r == spec_camera_active(presenter, mode, direct, render),
{
    if presenter {
        match mode {
            Mode::Paused => false,
            _ => !direct,
        }
    } else {
        render
    }
}

/// The wallpaper runs on the efficiency cores while nobody is looking.
pub fn background_priority(wallpaper: bool, mode: Mode) -> (r: bool)
    ensures
        r == (wallpaper && mode != Mode::Awake),
{
    wallpaper && match mode {
        Mode::Awake => false,
        _ => true,
    }
}

/// Paused, nothing is drawn and nothing moves: no camera is active, the
/// scene is not rendered and the simulation clock stands, whatever else holds.
pub proof fn lemma_paused_is_idle(stirring: bool, low: bool, presenter: bool, direct: bool, due: bool)
    ensures
        spec_mode(true, stirring, low) == Mode::Paused,
        !spec_render(Mode::Paused, due),
        !spec_camera_active(presenter, Mode::Paused, direct, spec_render(Mode::Paused, due)),
{
}

/// Visible and stirring, the program is awake and renders every frame, with
/// the presenter showing it unless the scene is drawn straight into the window.
pub proof fn lemma_awake_renders(low: bool, presenter: bool, direct: bool, due: bool)
    ensures
        spec_mode(false, true, low) == Mode::Awake,
        spec_render(Mode::Awake, due),
        spec_camera_active(presenter, Mode::Awake, direct, spec_render(Mode::Awake, due)) == (!presenter || !direct),
{
}

/// Asleep, a low battery gives the still mode and a healthy one the sleeping
/// mode; neither is ever chosen while something stirs or nothing is visible.
pub proof fn lemma_sleep_modes(paused: bool, stirring: bool, low: bool)
    ensures
        spec_mode(paused, stirring, low) == Mode::Still <==> (!paused && !stirring && low),
        spec_mode(paused, stirring, low) == Mode::Sleeping <==> (!paused && !stirring && !low),
{
}

/// The presenter shows the last image in every mode but paused, sleeping or
/// still alike, unless the scene is drawn straight into the window; the
/// scene cameras follow whether the scene is rendered, whatever the mode.
pub proof fn lemma_presenter_active(m: Mode, direct: bool, render: bool, m2: Mode)
    ensures
        spec_camera_active(true, m, direct, render) == (m != Mode::Paused && !direct),
        m != Mode::Paused && m2 != Mode::Paused ==> spec_camera_active(true, m, direct, render)
            == spec_camera_active(true, m2, direct, !render),
        spec_camera_active(false, m, direct, render) == spec_camera_active(false, m2, !direct, render),
        spec_camera_active(false, m, direct, render) == render,
{
}

/// Full speed is 60 frames a second; each of the four reasons (`--low-power`,
/// battery, Low Power Mode, critical heat) alone halves it, and adding a
/// reason never raises it.
pub proof fn lemma_awake_rate(low_power: bool, on_battery: bool, low_power_mode: bool, thermal: u8)
    ensures
        (if spec_reduced(false, false, false, 0) { 30u32 } else { 60u32 }) == 60,
        (if spec_reduced(true, false, false, 0) { 30u32 } else { 60u32 }) == 30,
        (if spec_reduced(false, true, false, 0) { 30u32 } else { 60u32 }) == 30,
        (if spec_reduced(false, false, true, 0) { 30u32 } else { 60u32 }) == 30,
        (if spec_reduced(false, false, false, 3) { 30u32 } else { 60u32 }) == 30,
        spec_reduced(low_power, on_battery, low_power_mode, thermal) <==> (low_power || on_battery
            || low_power_mode || thermal >= 3),
        spec_reduced(low_power, on_battery, low_power_mode, thermal) ==> spec_reduced(
            true,
            on_battery,
            low_power_mode,
            thermal,
        ) && spec_reduced(low_power, true, low_power_mode, thermal) && spec_reduced(
            low_power,
            on_battery,
            true,
            thermal,
        ),
{
}

/// Asleep the scene is drawn every frame; still, only when a frame is due;
/// paused, never; awake, every frame.
pub proof fn lemma_render_by_mode(due: bool)
    ensures
        spec_render(Mode::Awake, due),
        spec_render(Mode::Sleeping, due),
        spec_render(Mode::Still, due) == due,
        !spec_render(Mode::Paused, due),
{
}

} // verus!
