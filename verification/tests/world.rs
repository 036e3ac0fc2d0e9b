use aquarium::food::{Drops, Flake, FlakeChange, FlakeState, FoodPool};
use aquarium::grid::{flood_fill, neighbour, previous_offsets, Layout};
use aquarium::probe::{dt_mode, step_after, DtMode, Step};
use aquarium::tags::pack_fields;

#[test]
fn flake_life_cycle() {
    let mut pool = FoodPool::new();
    pool.give(7);
    pool.give(9);
    let e = pool.take().unwrap();
    assert_eq!(e, 9);
    let mut f = Flake { state: FlakeState::Idle };
    assert_eq!(f.probe(), None);
    f.launch();
    assert_eq!(f.probe(), None);
    assert!(!f.edible());
    assert_eq!(f.advance(false, true), FlakeChange::Unchanged);
    assert_eq!(f.advance(true, false), FlakeChange::Shown);
    assert_eq!(f.probe(), Some("floating"));
    assert!(f.edible() && f.catchable());
    assert_eq!(f.advance(true, false), FlakeChange::Sinks);
    assert_eq!(f.advance(true, false), FlakeChange::Unchanged);
    assert_eq!(f.advance(false, true), FlakeChange::Settles);
    assert!(f.resting() && f.edible() && !f.catchable());
    assert_eq!(f.advance(true, false), FlakeChange::Fades);
    assert_eq!(f.probe(), Some("fading"));
    assert!(!f.edible());
    assert_eq!(f.advance(true, false), FlakeChange::Dissolves);
    assert!(pool.consume(e, &mut f));
    assert_eq!(f.state, FlakeState::Idle);
    assert_eq!(pool.free, vec![7, 9]);
    // Eaten twice: given back once.
    assert!(!pool.consume(e, &mut f));
    assert_eq!(pool.free, vec![7, 9]);
    assert_eq!(pool.take(), Some(9));
    assert_eq!(pool.take(), Some(7));
    assert_eq!(pool.take(), None);
}

#[test]
fn ripple_rings_keep_the_latest_four() {
    let mut d = Drops::new(0u32);
    for k in 1..=6u32 {
        d.add(k);
    }
    assert!(d.dirty);
    assert_eq!(d.next, 2);
    assert_eq!(d.rings, vec![5, 6, 3, 4]);
    assert!(d.take_dirty());
    assert!(!d.take_dirty());
}

#[test]
fn flood_fill_finds_open_water() {
    // 3 x 3 x 1: the top row open, a wall in the middle row but for x = 2,
    // the bottom row open: everything but the wall is reached.
    let l = Layout { nx: 3, ny: 3, nz: 1 };
    assert_eq!(l.count(), 9);
    assert_eq!(l.index(1, 2, 0), 7);
    let mut passable = vec![true; 9];
    passable[l.index(0, 1, 0)] = false;
    passable[l.index(1, 1, 0)] = false;
    let out = flood_fill(&l, &passable);
    assert_eq!(out, vec![true, true, true, false, false, true, true, true, true]);
    // Close the gap: the bottom row is a sealed pocket.
    passable[l.index(2, 1, 0)] = false;
    let out = flood_fill(&l, &passable);
    assert_eq!(out, vec![false, false, false, false, false, false, true, true, true]);
}

#[test]
fn flood_fill_in_three_dimensions() {
    let l = Layout { nx: 5, ny: 5, nz: 5 };
    let n = l.count();
    // A closed box: the shell of (1..4)^3 blocked, its centre open but sealed.
    let mut passable = vec![true; n];
    for z in 1..4u32 {
        for y in 1..4u32 {
            for x in 1..4u32 {
                if (x, y, z) != (2, 2, 2) {
                    passable[l.index(x, y, z)] = false;
                }
            }
        }
    }
    let out = flood_fill(&l, &passable);
    let centre = l.index(2, 2, 2);
    for k in 0..n {
        assert_eq!(out[k], passable[k] && k != centre);
    }
    let none = flood_fill(&l, &vec![false; n]);
    assert!(none.iter().all(|&b| !b));
}

#[test]
fn sweep_neighbourhoods() {
    let o = previous_offsets();
    assert_eq!(o.len(), 13);
    assert_eq!(o[0], (-1, -1, -1));
    assert_eq!(o[12], (-1, 0, 0));
    assert!(o.iter().all(|&(dx, dy, dz)| (dz, dy, dx) < (0, 0, 0)));
    let l = Layout { nx: 3, ny: 2, nz: 2 };
    assert_eq!(neighbour(&l, 0, 0, 0, (-1, 0, 0)), None);
    assert_eq!(neighbour(&l, 0, 0, 0, (1, 1, 1)), Some(l.index(1, 1, 1)));
    assert_eq!(neighbour(&l, 2, 1, 1, (1, 0, 0)), None);
}

#[test]
fn physics_time_steps() {
    assert_eq!(dt_mode(b"30"), DtMode::Thirty);
    assert_eq!(dt_mode(b"vsync"), DtMode::Vsync);
    assert_eq!(dt_mode(b""), DtMode::Sixty);
    assert_eq!(dt_mode(b"60"), DtMode::Sixty);
    assert_eq!(step_after(DtMode::Sixty, 5), Step::Frame);
    assert_eq!(step_after(DtMode::Thirty, 5), Step::Missed);
    for n in 0..5000u32 {
        let k = (n.wrapping_mul(2654435761) >> 7) % 300;
        let want = if k == 0 { Step::Hitch } else if k % 3 == 0 { Step::Missed } else { Step::Frame };
        assert_eq!(step_after(DtMode::Vsync, n), want);
    }
    assert_eq!(step_after(DtMode::Vsync, 0), Step::Hitch);
}

#[test]
fn tags_pack_four_fields() {
    assert_eq!(pack_fields(0, 0, 0, 0), 0);
    assert_eq!(pack_fields(0xfff, 0x3f, 0x3f, 0xff), u32::MAX);
    let t = pack_fields(0x1234, 0x45, 5, 0x1ff);
    assert_eq!(t & 0xfff, 0x234);
    assert_eq!((t >> 12) & 0x3f, 0x05);
    assert_eq!((t >> 18) & 0x3f, 5);
    assert_eq!(t >> 24, 0xff);
}

#[test]
fn dissolving_returns_the_flake_once() {
    let mut pool = FoodPool::new();
    let mut f = Flake { state: FlakeState::Idle };
    f.launch();
    let mut changes = Vec::new();
    for _ in 0..5 {
        changes.push(pool.update(3, &mut f, true, true));
    }
    assert_eq!(
        changes,
        vec![FlakeChange::Shown, FlakeChange::Sinks, FlakeChange::Settles, FlakeChange::Fades, FlakeChange::Dissolves]
    );
    assert_eq!(f.state, FlakeState::Idle);
    assert_eq!(pool.free, vec![3]);
    assert_eq!(pool.update(3, &mut f, true, true), FlakeChange::Unchanged);
    assert_eq!(pool.free, vec![3]);
}
