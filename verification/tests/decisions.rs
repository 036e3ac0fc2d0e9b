use aquarium::config::Quality;
use aquarium::crab::{state_name, think, CrabAction, CrabSenses, CrabState};
use aquarium::gait::{plan_steps, LegMove, LegSense};
use aquarium::glider::{decide, mode_name, moving, GlideAction, GlideMode, GliderSenses, GliderState};
use aquarium::intro::Curtain;
use aquarium::power::{
    awake_fps, background_priority, camera_active, can_sleep, low_battery, pick_mode, reactive_loop,
    renders, simulates, Mode,
};
use aquarium::quality::{first_fitting, AdaptiveQuality, Calibration, CalibrationStep, HeatHold, Headroom, HoldStep};

fn calm() -> CrabSenses {
    CrabSenses {
        threatened: false,
        food_near: false,
        timer_out: false,
        at_target: false,
        food_present: false,
        at_food: false,
        flee_over: false,
    }
}

#[test]
fn awake_frame_rate() {
    assert_eq!(awake_fps(false, false, false, 0), 60);
    assert_eq!(awake_fps(false, false, false, 2), 60);
    assert_eq!(awake_fps(true, false, false, 0), 30);
    assert_eq!(awake_fps(false, true, false, 0), 30);
    assert_eq!(awake_fps(false, false, true, 0), 30);
    assert_eq!(awake_fps(false, false, false, 3), 30);
}

#[test]
fn power_modes() {
    assert_eq!(pick_mode(true, true, true), Mode::Paused);
    assert_eq!(pick_mode(false, true, true), Mode::Awake);
    assert_eq!(pick_mode(false, false, true), Mode::Still);
    assert_eq!(pick_mode(false, false, false), Mode::Sleeping);
    assert!(low_battery(true, Some(true)));
    assert!(!low_battery(true, None));
    assert!(!low_battery(false, Some(true)));
    assert!(can_sleep(true, false, false));
    assert!(!can_sleep(true, true, false));
    assert!(can_sleep(false, true, true));
}

#[test]
fn paused_draws_nothing() {
    let m = pick_mode(true, true, false);
    let r = renders(m, true);
    assert!(!r);
    assert!(!simulates(m));
    assert!(reactive_loop(m));
    assert!(!camera_active(true, m, false, r));
    assert!(!camera_active(false, m, false, r));
}

#[test]
fn still_renders_when_due() {
    assert!(renders(Mode::Still, true));
    assert!(!renders(Mode::Still, false));
    assert!(renders(Mode::Sleeping, false));
    assert!(camera_active(true, Mode::Still, false, false));
    assert!(!camera_active(true, Mode::Awake, true, true));
    assert!(camera_active(false, Mode::Awake, true, true));
    assert!(background_priority(true, Mode::Sleeping));
    assert!(!background_priority(true, Mode::Awake));
    assert!(!background_priority(false, Mode::Still));
}

#[test]
fn fog_steps_per_level() {
    let mut q = AdaptiveQuality::default();
    assert_eq!(q.fog_steps(Quality::High), 16);
    assert_eq!(q.fog_steps(Quality::Medium), 12);
    assert_eq!(q.fog_steps(Quality::Low), 10);
    q.level = AdaptiveQuality::MAX_LEVEL;
    assert_eq!(q.fog_steps(Quality::High), 8);
    assert_eq!(q.fog_steps(Quality::Medium), 6);
    assert_eq!(q.fog_steps(Quality::Low), 6);
}

#[test]
fn calibration_runs_behind_the_curtain() {
    let mut q = AdaptiveQuality::default();
    assert!(!q.ready() && !q.calibrating());
    assert_eq!(q.calibrate(None, false, false, false), CalibrationStep::Idle);
    assert_eq!(q.calibrate(None, true, true, false), CalibrationStep::Idle);
    assert_eq!(q.calibrate(None, true, false, false), CalibrationStep::Start);
    assert_eq!(q.calibration, Calibration::Measuring { skip: 12 });
    assert!(q.calibrating());
    for _ in 0..12 {
        assert_eq!(q.calibrate(None, true, false, false), CalibrationStep::Skip);
    }
    assert_eq!(q.calibrate(None, true, false, false), CalibrationStep::Sample);
    assert_eq!(q.calibrate(None, true, true, false), CalibrationStep::Abort);
    assert_eq!(q.calibration, Calibration::Waiting);
    q.calibrate(None, true, false, false);
    assert_eq!(q.calibrate(None, true, false, true), CalibrationStep::TimedOut);
    q.finish(2);
    assert!(q.ready());
    assert_eq!(q.level, 2);
    assert_eq!(q.calibrate(None, true, false, false), CalibrationStep::Idle);
}

#[test]
fn captures_take_a_fixed_level() {
    let mut q = AdaptiveQuality::default();
    assert_eq!(q.calibrate(Some(0), false, true, false), CalibrationStep::Fixed);
    assert!(q.ready());
    assert_eq!(q.level, 0);
}

#[test]
fn levels_move_only_unobserved_or_forced() {
    let mut q = AdaptiveQuality::default();
    q.finish(1);
    // A sharper level waits for patience, a coarser one is scheduled at once.
    assert_eq!(q.schedule(0, false), Headroom::Grow);
    assert_eq!(q.pending, None);
    assert_eq!(q.schedule(0, true), Headroom::Grow);
    assert_eq!(q.pending, Some(0));
    assert_eq!(q.level, 1);
    assert_eq!(q.schedule(3, false), Headroom::Reset);
    assert_eq!(q.pending, Some(3));
    assert_eq!(q.level, 1);
    assert_eq!(q.unobserved(), Some(1));
    assert_eq!(q.level, 3);
    assert_eq!(q.pending, None);
    assert_eq!(q.unobserved(), None);
    assert_eq!(q.schedule(3, true), Headroom::Reset);
    assert_eq!(q.pending, None);
    // Two late windows in a row force a drop of at least one level.
    assert!(!q.close_window(true));
    assert!(q.close_window(true));
    q.force_drop(0);
    assert_eq!(q.level, 4);
    assert_eq!(q.late_windows, 0);
    q.force_drop(5);
    assert_eq!(q.level, 5);
    q.close_window(true);
    assert!(!q.close_window(true));
    assert!(!q.close_window(false));
    assert_eq!(q.late_windows, 0);
    q.rechoose(2);
    assert_eq!(q.level, 2);
}

#[test]
fn sharpest_fitting_level() {
    assert_eq!(first_fitting(&vec![true, true, true, true, true, true]), 0);
    assert_eq!(first_fitting(&vec![false, false, true, false, true, true]), 2);
    assert_eq!(first_fitting(&vec![false; 6]), 5);
}

#[test]
fn crab_danger_first() {
    let threat = CrabSenses { threatened: true, food_near: true, ..calm() };
    assert_eq!(think(CrabState::Forage, threat), (CrabState::Flee, CrabAction::RunForCover));
    assert_eq!(think(CrabState::Eat, threat), (CrabState::Flee, CrabAction::RunForCover));
    assert_eq!(think(CrabState::Hidden, CrabSenses { timer_out: true, ..threat }), (CrabState::Hidden, CrabAction::StayHidden));
    assert_eq!(think(CrabState::Flee, threat), (CrabState::Flee, CrabAction::Keep));
    assert_eq!(think(CrabState::Flee, CrabSenses { flee_over: true, ..threat }), (CrabState::Hidden, CrabAction::Hide));
}

#[test]
fn crab_daily_life() {
    assert_eq!(think(CrabState::Pause, CrabSenses { food_near: true, ..calm() }), (CrabState::Eat, CrabAction::GoForFood));
    assert_eq!(think(CrabState::Pause, CrabSenses { timer_out: true, ..calm() }), (CrabState::Forage, CrabAction::Wander));
    assert_eq!(think(CrabState::Forage, CrabSenses { at_target: true, ..calm() }), (CrabState::Pause, CrabAction::Rest));
    assert_eq!(think(CrabState::Forage, calm()), (CrabState::Forage, CrabAction::Keep));
    assert_eq!(think(CrabState::Pause, CrabSenses { at_target: true, ..calm() }), (CrabState::Pause, CrabAction::Keep));
    assert_eq!(think(CrabState::Eat, calm()), (CrabState::Pause, CrabAction::LoseFood));
    assert_eq!(think(CrabState::Eat, CrabSenses { food_present: true, ..calm() }), (CrabState::Eat, CrabAction::FollowFood));
    assert_eq!(think(CrabState::Eat, CrabSenses { food_present: true, at_food: true, ..calm() }), (CrabState::Pause, CrabAction::EatFood));
    assert_eq!(think(CrabState::Hidden, CrabSenses { timer_out: true, ..calm() }), (CrabState::Forage, CrabAction::Wander));
    assert_eq!(state_name(CrabState::Hidden), "hidden");
    assert_eq!(state_name(CrabState::Forage), "forage");
}

fn quiet() -> GliderSenses {
    GliderSenses { threatened: false, timer_out: false, on_rock: false, room: true, arrived: false }
}

#[test]
fn flatfish_decisions() {
    let rest = GliderState { mode: GlideMode::Rest, stuck: false };
    let glide = GliderState { mode: GlideMode::Glide, stuck: false };
    assert_eq!(decide(rest, quiet()), (rest, GlideAction::Keep));
    assert_eq!(decide(rest, GliderSenses { threatened: true, ..quiet() }).1, GlideAction::Bolt);
    let startled = GliderState { mode: GlideMode::Startle, stuck: false };
    assert_eq!(decide(startled, GliderSenses { threatened: true, ..quiet() }), (startled, GlideAction::Keep));
    assert_eq!(decide(rest, GliderSenses { room: false, ..quiet() }), (glide, GlideAction::SetOff));
    let stuck = GliderState { mode: GlideMode::Rest, stuck: true };
    assert_eq!(decide(stuck, GliderSenses { room: false, ..quiet() }), (stuck, GlideAction::Keep));
    assert_eq!(decide(stuck, GliderSenses { on_rock: true, ..quiet() }), (glide, GlideAction::SetOff));
    assert_eq!(decide(glide, GliderSenses { arrived: true, on_rock: true, ..quiet() }), (glide, GlideAction::Retarget));
    assert_eq!(
        decide(glide, GliderSenses { arrived: true, room: false, ..quiet() }),
        (GliderState { mode: GlideMode::Rest, stuck: true }, GlideAction::Settle)
    );
    assert!(moving(GlideMode::Startle) && !moving(GlideMode::Rest));
    assert_eq!(mode_name(GlideMode::Glide), "glide");
}

fn leg(group: usize, planted: bool, far: bool) -> LegSense {
    LegSense { group, planted, far, overstretched: false, way_off: false }
}

#[test]
fn gait_alternates() {
    // Every foot behind: only the first leg's group steps.
    let legs: Vec<LegSense> = (0..8).map(|i| leg(i % 2, true, true)).collect();
    let m = plan_steps(&legs);
    for i in 0..8 {
        assert_eq!(m[i], if i % 2 == 0 { LegMove::Lift } else { LegMove::Hold });
    }
    // Group 0 in the air: group 1 waits.
    let legs = vec![leg(0, false, false), leg(1, true, true), leg(0, true, true)];
    assert_eq!(plan_steps(&legs), vec![LegMove::Hold, LegMove::Hold, LegMove::Lift]);
    // Out of reach: steps at once; way off: put down.
    let mut legs = vec![leg(0, false, false), leg(1, true, false), leg(1, true, false)];
    legs[1].overstretched = true;
    legs[2].overstretched = true;
    legs[2].way_off = true;
    assert_eq!(plan_steps(&legs), vec![LegMove::Hold, LegMove::Lift, LegMove::PutDown]);
}

#[test]
fn curtain_waits_for_stable_frames() {
    let mut c = Curtain::new();
    for _ in 0..20 {
        c.count(true);
    }
    assert!(!c.lifting(false, false));
    c.count(true);
    assert!(c.lifting(false, false));
    c.count(false);
    assert_eq!(c.ready_frames, 0);
    assert!(!c.lifting(false, false));
    assert!(c.lifting(true, false));
    assert!(c.lifting(false, true));
}

#[test]
fn pinned_level_is_taken() {
    let mut q = AdaptiveQuality::default();
    q.finish(1);
    q.schedule(4, false);
    q.pin(3);
    assert_eq!(q.level, 3);
    assert_eq!(q.pending, Some(4));
}

#[test]
fn watched_window_keeps_or_coarsens() {
    let mut q = AdaptiveQuality::default();
    q.finish(2);
    assert!(!q.close_window(true));
    assert_eq!(q.schedule(0, true), Headroom::Grow);
    assert_eq!(q.level, 2);
    assert!(q.close_window(true));
    q.force_drop(1);
    assert_eq!((q.level, q.pending, q.late_windows), (3, None, 0));
}

#[test]
fn heat_hold_waits_for_a_cool_spell() {
    let mut h = HeatHold::new();
    assert_eq!(h.step(true, true), HoldStep::Keep);
    h.after_drop(false);
    assert!(!h.active);
    h.after_drop(true);
    assert_eq!(h.step(true, true), HoldStep::StartCooling);
    assert_eq!(h.step(true, false), HoldStep::Keep);
    assert_eq!(h.step(false, true), HoldStep::StopCooling);
    assert!(h.active && !h.cooling);
    assert_eq!(h.step(true, false), HoldStep::StartCooling);
    assert_eq!(h.step(true, true), HoldStep::Release);
    assert!(!h.active && !h.cooling);
}
