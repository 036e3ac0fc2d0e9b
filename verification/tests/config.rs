use aquarium::camera::{fixed_view, preset, scene_target, window_usable, CameraView, TargetPlan};
use aquarium::switches::{autopilot_clicks, contains, hidden_by};
use aquarium::capture::{capture_frame, capture_size, comma_numbers, parse_resolution, parse_sequence, sequence_image, Sequence};
use aquarium::config::{parse_u32_bytes, AppConfig, ArgsOutcome, Quality};
use aquarium::quality::pinned;

fn args(a: &[&str]) -> Vec<String> {
    a.iter().map(|s| s.to_string()).collect()
}

fn run(a: &[&str]) -> (AppConfig, Vec<String>) {
    match AppConfig::from_args(args(a)) {
        ArgsOutcome::Run { config, unknown } => (config, unknown),
        ArgsOutcome::Help => panic!("help"),
    }
}

#[test]
fn defaults() {
    let (c, u) = run(&[]);
    assert!(!c.low_power && !c.windowed && !c.wallpaper && !c.no_sleep && !c.dof);
    assert_eq!(c.quality, Quality::High);
    assert_eq!(c.view, None);
    assert_eq!(c.screenshot, None);
    assert_eq!(c.frames, 90);
    assert!(u.is_empty());
}

#[test]
fn flags_and_values() {
    let (c, u) = run(&["--wallpaper", "--no-sleep", "--dof", "--quality", "low", "--view", "hero", "--frames", "120"]);
    assert!(c.wallpaper && c.no_sleep && c.dof && !c.windowed);
    assert_eq!(c.quality, Quality::Low);
    assert_eq!(c.view.as_deref(), Some("hero"));
    assert_eq!(c.frames, 120);
    assert!(u.is_empty());
}

#[test]
fn screenshot_implies_windowed() {
    let (c, _) = run(&["--screenshot", "out.png"]);
    assert!(c.windowed);
    assert_eq!(c.screenshot.as_deref(), Some("out.png"));
}

#[test]
fn low_power_caps_quality_at_medium() {
    let (c, _) = run(&["--low-power"]);
    assert!(c.low_power);
    assert_eq!(c.quality, Quality::Medium);
    let (c, _) = run(&["--quality", "low", "--low-power"]);
    assert_eq!(c.quality, Quality::Low);
    let (c, _) = run(&["--low-power", "--quality", "high"]);
    assert_eq!(c.quality, Quality::Medium);
}

#[test]
fn unknown_quality_is_high_and_bad_frames_default() {
    let (c, _) = run(&["--quality", "ultra", "--frames", "many"]);
    assert_eq!(c.quality, Quality::High);
    assert_eq!(c.frames, 90);
    let (c, _) = run(&["--frames", "+7"]);
    assert_eq!(c.frames, 7);
    let (c, _) = run(&["--frames", "-7"]);
    assert_eq!(c.frames, 90);
    let (c, _) = run(&["--frames", "4294967296"]);
    assert_eq!(c.frames, 90);
}

#[test]
fn a_value_is_taken_whatever_it_looks_like() {
    let (c, u) = run(&["--view", "--dof"]);
    assert_eq!(c.view.as_deref(), Some("--dof"));
    assert!(!c.dof);
    assert!(u.is_empty());
    // A missing value at the end.
    let (c, _) = run(&["--dof", "--view"]);
    assert_eq!(c.view, None);
    assert!(c.dof);
}

#[test]
fn unknown_arguments_are_listed() {
    let (c, u) = run(&["--fast", "--dof", "x"]);
    assert!(c.dof);
    assert_eq!(u, args(&["--fast", "x"]));
}

#[test]
fn help_stops() {
    assert!(matches!(AppConfig::from_args(args(&["--dof", "-h"])), ArgsOutcome::Help));
    assert!(matches!(AppConfig::from_args(args(&["--help", "--bogus"])), ArgsOutcome::Help));
}

#[test]
fn decimal_numbers() {
    assert_eq!(parse_u32_bytes(b"0"), Some(0));
    assert_eq!(parse_u32_bytes(b"4294967295"), Some(u32::MAX));
    assert_eq!(parse_u32_bytes(b"4294967296"), None);
    assert_eq!(parse_u32_bytes(b"99999999999999"), None);
    assert_eq!(parse_u32_bytes(b""), None);
    assert_eq!(parse_u32_bytes(b"+"), None);
    assert_eq!(parse_u32_bytes(b"12a"), None);
    assert_eq!(parse_u32_bytes(b" 1"), None);
    assert_eq!(parse_u32_bytes(b"007"), Some(7));
    for s in ["0", "+5", "123", "4294967295", "4294967296", "", "-1", "+", "1_0"] {
        assert_eq!(parse_u32_bytes(s.as_bytes()), s.parse::<u32>().ok(), "{s}");
    }
}

#[test]
fn pinned_level_is_capped() {
    assert_eq!(pinned(b"3"), Some(3));
    assert_eq!(pinned(b"9"), Some(5));
    assert_eq!(pinned(b"x"), None);
}

#[test]
fn camera_presets() {
    assert_eq!(preset(&"fill".to_string()), Some(CameraView::Fill));
    assert_eq!(preset(&"inside".to_string()), Some(CameraView::Inside));
    assert_eq!(preset(&"close".to_string()), Some(CameraView::Close));
    assert_eq!(preset(&"Fill".to_string()), None);
    assert_eq!(fixed_view(&Some("top".to_string())), Some(CameraView::Top));
    assert_eq!(fixed_view(&None), None);
}

#[test]
fn capture_resolution() {
    assert_eq!(parse_resolution(b"800x600"), Some((800, 600)));
    assert_eq!(parse_resolution(b"800x600x2"), None);
    assert_eq!(parse_resolution(b"800"), None);
    assert_eq!(parse_resolution(b"x600"), None);
    assert_eq!(capture_size(Some(b"640x480")), (640, 480));
    assert_eq!(capture_size(Some(b"bad")), (1920, 1200));
    assert_eq!(capture_size(None), (1920, 1200));
}

#[test]
fn capture_sequence() {
    assert_eq!(comma_numbers(b"1,x,2,,3"), vec![1, 2, 3]);
    assert_eq!(comma_numbers(b""), Vec::<u32>::new());
    assert_eq!(parse_sequence(b"10,3,5"), Some(Sequence { from: 10, count: 3, every: 5 }));
    assert_eq!(parse_sequence(b"10,3,0"), None);
    assert_eq!(parse_sequence(b"10,3"), None);
    assert_eq!(parse_sequence(b"10,a,3,5"), Some(Sequence { from: 10, count: 3, every: 5 }));
    let s = Sequence { from: 10, count: 3, every: 5 };
    let shots: Vec<(u32, u32)> = (0..40).filter_map(|f| sequence_image(s, f).map(|k| (f, k))).collect();
    assert_eq!(shots, vec![(10, 0), (15, 1), (20, 2)]);
}

#[test]
fn capture_run_frames() {
    let f = capture_frame(30, 90, None);
    assert!(f.start_timer && !f.shoot && !f.may_exit && !f.give_up && f.image.is_none());
    let f = capture_frame(90, 90, None);
    assert!(f.shoot && !f.start_timer);
    assert!(!capture_frame(95, 90, None).may_exit);
    assert!(capture_frame(96, 90, None).may_exit);
    assert!(!capture_frame(690, 90, None).give_up);
    assert!(capture_frame(691, 90, None).give_up);
    // Fewer frames than the timing window: timing starts at frame 0, never seen.
    assert!(!capture_frame(1, 20, None).start_timer);
    let s = Sequence { from: 0, count: 2, every: 3 };
    assert_eq!(capture_frame(3, 90, Some(s)).image, Some(1));
}

#[test]
fn debug_switches() {
    assert!(contains(b"taa,bloom", b"bloom"));
    assert!(!contains(b"taa,bloom", b"fog"));
    assert!(contains(b"abc", b""));
    assert!(!contains(b"ab", b"abc"));
    assert!(contains(b"pcss", b"pcss"));
    assert!(hidden_by(b"rock_09", b"plant,rock"));
    assert!(!hidden_by(b"rock_09", b"plant,,fish"));
    assert!(!hidden_by(b"rock_09", b""));
    assert!(!hidden_by(b"rock_09", b",,"));
    assert!(hidden_by(b"fish", b"sh"));
    assert!(autopilot_clicks(240));
    assert!(autopilot_clicks(720));
    assert!(!autopilot_clicks(480));
}

#[test]
fn scene_targets() {
    assert_eq!(scene_target((800, 600), (800, 600), false), TargetPlan { direct: true, width: 64, height: 64 });
    assert_eq!(scene_target((800, 600), (800, 600), true), TargetPlan { direct: false, width: 800, height: 600 });
    assert_eq!(scene_target((640, 480), (800, 600), false), TargetPlan { direct: false, width: 640, height: 480 });
    assert!(window_usable((16, 16)));
    assert!(!window_usable((15, 600)));
}
