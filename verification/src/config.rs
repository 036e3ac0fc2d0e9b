//! Command-line configuration.
//!
//! ```text
//! aquarium [--wallpaper [--no-sleep]] [--low-power] [--windowed] [--dof]
//!          [--quality low|medium|high] [--view fill|front|hero|side|top|low|close|inside]
//!          [--screenshot out.png] [--frames N]
//! ```
use vstd::prelude::*;

verus! {

/// Rendering quality preset.
#[derive(Clone, Copy, Debug, PartialEq, Eq, Structural)]
pub enum Quality {
    Low,
    Medium,
    High,
}

/// What the command line asks for.
#[derive(Clone, Debug)]
pub struct AppConfig {
    /// 30 fps cap and half the particles.
    pub low_power: bool,
    /// Windowed 1600x1000 instead of borderless fullscreen.
    pub windowed: bool,
    /// Live desktop wallpaper: behind the desktop icons, click-through.
    pub wallpaper: bool,
    /// Wallpaper only: stay fully awake instead of the slow "sleeping aquarium".
    pub no_sleep: bool,
    /// Depth of field (off by default: it softens the image).
    pub dof: bool,
    pub quality: Quality,
    /// Fixed camera preset (disables the drift): fill, front, hero, side, top, low, close, inside.
    pub view: Option<String>,
    /// Capture the window to this file then exit.
    pub screenshot: Option<String>,
    /// Frames to render before taking the screenshot.
    pub frames: u32,
}

/// The configuration as plain values: strings by their characters.
pub struct ConfigModel {
    pub low_power: bool,
    pub windowed: bool,
    pub wallpaper: bool,
    pub no_sleep: bool,
    pub dof: bool,
    pub quality: Quality,
    pub view: Option<Seq<char>>,
    pub screenshot: Option<Seq<char>>,
    pub frames: u32,
}

/// A string option's characters.
pub open spec fn chars_of(s: Option<String>) -> Option<Seq<char>> {
    match s {
        Some(t) => Some(t@),
        None => None,
    }
}

impl AppConfig {
    pub open spec fn model(&self) -> ConfigModel {
        ConfigModel {
            low_power: self.low_power,
            windowed: self.windowed,
            wallpaper: self.wallpaper,
            no_sleep: self.no_sleep,
            dof: self.dof,
            quality: self.quality,
            view: chars_of(self.view),
            screenshot: chars_of(self.screenshot),
            frames: self.frames,
        }
    }
}

/// The defaults: fullscreen, high quality, 90 frames before a screenshot.
pub open spec fn default_model() -> ConfigModel {
    ConfigModel {
        low_power: false,
        windowed: false,
        wallpaper: false,
        no_sleep: false,
        dof: false,
        quality: Quality::High,
        view: None,
        screenshot: None,
        frames: 90,
    }
}

/// The frame count used when `--frames` has no valid number.
pub open spec fn default_frames() -> u32 {
    90
}

// ---------------------------------------------------------------------------
// Unsigned decimal numbers, as `u32::from_str` reads them
// ---------------------------------------------------------------------------

pub open spec fn is_digit(b: u8) -> bool {
    48 <= b <= 57
}

/// The value of a run of decimal digits.
pub open spec fn digits_value(d: Seq<u8>) -> int
    decreases d.len(),
{
    if d.len() == 0 {
        0
    } else {
        digits_value(d.drop_last()) * 10 + (d.last() - 48)
    }
}

/// The digits after an optional leading `+`.
pub open spec fn unsigned_digits(b: Seq<u8>) -> Seq<u8> {
    if b.len() > 0 && b[0] == 43 {
        b.drop_first()
    } else {
        b
    }
}

/// A `u32` written in decimal: an optional `+`, then at least one digit and
/// nothing else, of a value that fits.
pub open spec fn parse_u32(b: Seq<u8>) -> Option<u32> {
    let d = unsigned_digits(b);
    if d.len() > 0 && (forall|i: int| 0 <= i < d.len() ==> is_digit(#[trigger] d[i])) && digits_value(
        d,
    ) <= u32::MAX {
        Some(digits_value(d) as u32)
    } else {
        None
    }
}

proof fn lemma_digits_value_prefix(d: Seq<u8>, k: int)
    requires
        0 <= k <= d.len(),
        forall|i: int| 0 <= i < d.len() ==> is_digit(#[trigger] d[i]),
    ensures
        0 <= digits_value(d.subrange(0, k)) <= digits_value(d),
    decreases d.len(),
{
    if d.len() > 0 {
        let e = d.drop_last();
        assert forall|i: int| 0 <= i < e.len() implies is_digit(#[trigger] e[i]) by {
            assert(e[i] == d[i]);
        }
        if k == d.len() {
            assert(d.subrange(0, k) =~= d);
            lemma_digits_value_prefix(e, k - 1);
            assert(e.subrange(0, k - 1) =~= e);
        } else {
            lemma_digits_value_prefix(e, k);
            assert(e.subrange(0, k) =~= d.subrange(0, k));
            lemma_digits_value_prefix(e, e.len() as int);
            assert(e.subrange(0, e.len() as int) =~= e);
            assert(is_digit(d[d.len() - 1]));
        }
    }
}

/// Reads a decimal `u32` as `u32::from_str` does.
pub fn parse_u32_bytes(b: &[u8]) -> (r: Option<u32>)
    ensures
        r == parse_u32(b@),
{
    let n = b.len();
    let mut i: usize = 0;
    if n > 0 && b[0] == 43 {
        i = 1;
    }
    let ghost d = unsigned_digits(b@);
    assert(d =~= b@.subrange(i as int, n as int));
    if i == n {
        return None;
    }
    let start = i;
    let mut acc: u64 = 0;
    while i < n
        invariant
            start <= i <= n,
            n == b@.len(),
            d == unsigned_digits(b@),
            d =~= b@.subrange(start as int, n as int),
            forall|j: int| 0 <= j < i - start ==> is_digit(#[trigger] d[j]),
            acc == digits_value(d.subrange(0, i - start)),
            acc <= u32::MAX,
        decreases n - i,
    {
        let c = b[i];
        if c < 48 || c > 57 {
            assert(!is_digit(d[i - start]));
            return None;
        }
        let next: u64 = acc * 10 + (c - 48) as u64;
        proof {
            let p = d.subrange(0, i + 1 - start);
            assert(p.drop_last() =~= d.subrange(0, i - start));
            assert(p.last() == c);
        }
        if next > 4294967295 {
            proof {
                let k = i + 1 - start;
                if forall|j: int| 0 <= j < d.len() ==> is_digit(#[trigger] d[j]) {
                    lemma_digits_value_prefix(d, k);
                }
            }
            return None;
        }
        acc = next;
        i = i + 1;
    }
    assert(d.subrange(0, n - start) =~= d);
    Some(acc as u32)
}

// ---------------------------------------------------------------------------
// Argument list
// ---------------------------------------------------------------------------

/// What the command line asks the program to do.
pub enum ArgsOutcome {
    /// Run with this configuration; `unknown` holds the arguments that were
    /// not understood (to be warned about), in order.
    Run { config: AppConfig, unknown: Vec<String> },
    /// `-h` or `--help`: print the usage and stop.
    Help,
}

/// The value after an option, if there is one.
pub open spec fn value_after(rest: Seq<Seq<char>>) -> Option<Seq<char>> {
    if rest.len() > 0 {
        Some(rest[0])
    } else {
        None
    }
}

/// The arguments after an option's value (an absent value consumes nothing).
pub open spec fn after_value(rest: Seq<Seq<char>>) -> Seq<Seq<char>> {
    if rest.len() > 0 {
        rest.drop_first()
    } else {
        rest
    }
}

/// The quality that `--quality` selects: `low`, `medium`, anything else high.
pub open spec fn quality_named(v: Option<Seq<char>>) -> Quality {
    match v {
        Some(s) => if s == "low"@ {
            Quality::Low
        } else if s == "medium"@ {
            Quality::Medium
        } else {
            Quality::High
        },
        None => Quality::High,
    }
}

/// The frame count that `--frames` sets: its number, or the default.
pub open spec fn frames_named(v: Option<Seq<char>>) -> u32 {
    match v {
        Some(s) => match parse_u32(vstd::utf8::encode_utf8(s)) {
            Some(n) => n,
            None => default_frames(),
        },
        None => default_frames(),
    }
}

/// Reads the arguments left to right from configuration `c`, with `unknown`
/// the arguments not understood so far. `None`: help was asked for.
pub open spec fn read_args(
    c: ConfigModel,
    unknown: Seq<Seq<char>>,
    args: Seq<Seq<char>>,
) -> Option<(ConfigModel, Seq<Seq<char>>)>
    decreases args.len(),
{
    if args.len() == 0 {
        Some((c, unknown))
    } else {
        let a = args[0];
        let rest = args.drop_first();
        if a == "--low-power"@ {
            read_args(ConfigModel { low_power: true, ..c }, unknown, rest)
        } else if a == "--windowed"@ {
            read_args(ConfigModel { windowed: true, ..c }, unknown, rest)
        } else if a == "--wallpaper"@ {
            read_args(ConfigModel { wallpaper: true, ..c }, unknown, rest)
        } else if a == "--no-sleep"@ {
            read_args(ConfigModel { no_sleep: true, ..c }, unknown, rest)
        } else if a == "--dof"@ {
            read_args(ConfigModel { dof: true, ..c }, unknown, rest)
        } else if a == "--quality"@ {
            read_args(
                ConfigModel { quality: quality_named(value_after(rest)), ..c },
                unknown,
                after_value(rest),
            )
        } else if a == "--view"@ {
            read_args(ConfigModel { view: value_after(rest), ..c }, unknown, after_value(rest))
        } else if a == "--screenshot"@ {
            read_args(
                ConfigModel { screenshot: value_after(rest), windowed: true, ..c },
                unknown,
                after_value(rest),
            )
        } else if a == "--frames"@ {
            read_args(
                ConfigModel { frames: frames_named(value_after(rest)), ..c },
                unknown,
                after_value(rest),
            )
        } else if a == "-h"@ || a == "--help"@ {
            None
        } else {
            read_args(c, unknown.push(a), rest)
        }
    }
}

/// Low power caps the quality at medium.
pub open spec fn settle(c: ConfigModel) -> ConfigModel {
    if c.low_power && c.quality == Quality::High {
        ConfigModel { quality: Quality::Medium, ..c }
    } else {
        c
    }
}

/// The whole command line (program name excluded), as plain values.
pub open spec fn spec_from_args(args: Seq<Seq<char>>) -> Option<(ConfigModel, Seq<Seq<char>>)> {
    match read_args(default_model(), seq![], args) {
        Some((c, u)) => Some((settle(c), u)),
        None => None,
    }
}

/// What reading the arguments keeps: a screenshot always comes with a window.
pub open spec fn shot_windowed(c: ConfigModel) -> bool {
    c.screenshot is Some ==> c.windowed
}

proof fn lemma_read_args_keeps_shot_windowed(c: ConfigModel, unknown: Seq<Seq<char>>, args: Seq<Seq<char>>)
    requires
        shot_windowed(c),
    ensures
        match read_args(c, unknown, args) {
            Some((d, _)) => shot_windowed(d),
            None => true,
        },
    decreases args.len(),
{
    if args.len() > 0 {
        let rest = args.drop_first();
        let a = args[0];
        if a == "--low-power"@ {
            lemma_read_args_keeps_shot_windowed(ConfigModel { low_power: true, ..c }, unknown, rest);
        } else if a == "--windowed"@ {
            lemma_read_args_keeps_shot_windowed(ConfigModel { windowed: true, ..c }, unknown, rest);
        } else if a == "--wallpaper"@ {
            lemma_read_args_keeps_shot_windowed(ConfigModel { wallpaper: true, ..c }, unknown, rest);
        } else if a == "--no-sleep"@ {
            lemma_read_args_keeps_shot_windowed(ConfigModel { no_sleep: true, ..c }, unknown, rest);
        } else if a == "--dof"@ {
            lemma_read_args_keeps_shot_windowed(ConfigModel { dof: true, ..c }, unknown, rest);
        } else if a == "--quality"@ {
            lemma_read_args_keeps_shot_windowed(
                ConfigModel { quality: quality_named(value_after(rest)), ..c },
                unknown,
                after_value(rest),
            );
        } else if a == "--view"@ {
            lemma_read_args_keeps_shot_windowed(
                ConfigModel { view: value_after(rest), ..c },
                unknown,
                after_value(rest),
            );
        } else if a == "--screenshot"@ {
            lemma_read_args_keeps_shot_windowed(
                ConfigModel { screenshot: value_after(rest), windowed: true, ..c },
                unknown,
                after_value(rest),
            );
        } else if a == "--frames"@ {
            lemma_read_args_keeps_shot_windowed(
                ConfigModel { frames: frames_named(value_after(rest)), ..c },
                unknown,
                after_value(rest),
            );
        } else if a == "-h"@ || a == "--help"@ {
        } else {
            lemma_read_args_keeps_shot_windowed(c, unknown.push(a), rest);
        }
    }
}

/// Whatever the command line: with `--low-power` the quality is never high,
/// and a screenshot is always taken in a window.
pub proof fn lemma_settled_config(args: Seq<Seq<char>>)
    ensures
        match spec_from_args(args) {
            Some((c, _)) => (c.low_power ==> c.quality != Quality::High) && (c.screenshot is Some
                ==> c.windowed),
            None => true,
        },
{
    lemma_read_args_keeps_shot_windowed(default_model(), seq![], args);
}

/// `--quality` picks the quality by name: `low` gives low, `medium` gives
/// medium, any other value high; with `--low-power` given first, the
/// quality is at most medium. Nothing else is changed and nothing is left
/// over.
pub proof fn lemma_quality_option(v: Seq<char>)
    ensures
        ({
            let want = if v == "low"@ {
                Quality::Low
            } else if v == "medium"@ {
                Quality::Medium
            } else {
                Quality::High
            };
            &&& spec_from_args(seq!["--quality"@, v]) == Some(
                (ConfigModel { quality: want, ..default_model() }, Seq::<Seq<char>>::empty()),
            )
            &&& spec_from_args(seq!["--low-power"@, "--quality"@, v]) == Some(
                (
                    ConfigModel {
                        low_power: true,
                        quality: if want == Quality::High {
                            Quality::Medium
                        } else {
                            want
                        },
                        ..default_model()
                    },
                    Seq::<Seq<char>>::empty(),
                ),
            )
        }),
        spec_from_args(seq!["--quality"@, "low"@]).unwrap().0.quality == Quality::Low,
        spec_from_args(seq!["--quality"@, "medium"@]).unwrap().0.quality == Quality::Medium,
        spec_from_args(seq!["--quality"@, "high"@]).unwrap().0.quality == Quality::High,
{
    reveal_strlit("--quality");
    reveal_strlit("--low-power");
    reveal_strlit("--windowed");
    reveal_strlit("--wallpaper");
    reveal_strlit("--no-sleep");
    reveal_strlit("--dof");
    reveal_strlit("low");
    reveal_strlit("medium");
    reveal_strlit("high");
    assert("--quality"@ != "--low-power"@) by {
        assert("--quality"@[2] != "--low-power"@[2]);
    }
    assert("--quality"@ != "--windowed"@) by {
        assert("--quality"@[2] != "--windowed"@[2]);
    }
    assert("--quality"@ != "--wallpaper"@) by {
        assert("--quality"@[2] != "--wallpaper"@[2]);
    }
    assert("--quality"@ != "--no-sleep"@) by {
        assert("--quality"@[2] != "--no-sleep"@[2]);
    }
    assert("--quality"@ != "--dof"@) by {
        assert("--quality"@[2] != "--dof"@[2]);
    }
    assert("medium"@ != "low"@) by {
        assert("medium"@[0] != "low"@[0]);
    }
    assert("high"@ != "low"@) by {
        assert("high"@[0] != "low"@[0]);
    }
    assert("high"@ != "medium"@) by {
        assert("high"@[0] != "medium"@[0]);
    }
    lemma_quality_read(v);
    lemma_quality_read("low"@);
    lemma_quality_read("medium"@);
    lemma_quality_read("high"@);
    let a = seq!["--low-power"@, "--quality"@, v];
    assert(a[0] == "--low-power"@);
    assert(a.drop_first() =~= seq!["--quality"@, v]);
    let c1 = ConfigModel { low_power: true, ..default_model() };
    lemma_quality_read_from(c1, v);
}

proof fn lemma_quality_read(v: Seq<char>)
    requires
        "--quality"@ != "--low-power"@,
        "--quality"@ != "--windowed"@,
        "--quality"@ != "--wallpaper"@,
        "--quality"@ != "--no-sleep"@,
        "--quality"@ != "--dof"@,
    ensures
        read_args(default_model(), seq![], seq!["--quality"@, v]) == Some(
            (ConfigModel { quality: quality_named(Some(v)), ..default_model() }, Seq::<Seq<char>>::empty()),
        ),
{
    lemma_quality_read_from(default_model(), v);
}

proof fn lemma_quality_read_from(c: ConfigModel, v: Seq<char>)
    requires
        "--quality"@ != "--low-power"@,
        "--quality"@ != "--windowed"@,
        "--quality"@ != "--wallpaper"@,
        "--quality"@ != "--no-sleep"@,
        "--quality"@ != "--dof"@,
    ensures
        read_args(c, seq![], seq!["--quality"@, v]) == Some(
            (ConfigModel { quality: quality_named(Some(v)), ..c }, Seq::<Seq<char>>::empty()),
        ),
{
    let a = seq!["--quality"@, v];
    let rest = a.drop_first();
    assert(rest =~= seq![v]);
    assert(a[0] == "--quality"@);
    assert(value_after(rest) == Some(v));
    assert(after_value(rest) =~= Seq::<Seq<char>>::empty());
    let c2 = ConfigModel { quality: quality_named(value_after(rest)), ..c };
    assert(read_args(c2, seq![], Seq::<Seq<char>>::empty()) == Some((c2, Seq::<Seq<char>>::empty())));
}

/// Decimal numbers read as `u32::from_str` reads them: a single digit is its
/// value, one more digit multiplies by ten and adds it (while the value
/// fits), a leading `+` changes nothing, and the empty string, a lone `+`
/// and anything with a byte that is not a digit are refused.
pub proof fn lemma_decimal(d: Seq<u8>, b: u8, x: u8)
    requires
        48 <= b <= 57,
    ensures
        parse_u32(seq![b]) == Some((b - 48) as u32),
        parse_u32(Seq::<u8>::empty()) is None,
        parse_u32(seq![43u8]) is None,
        !is_digit(x) && x != 43 ==> parse_u32(seq![x]) is None,
        d.len() > 0 && d[0] != 43 ==> parse_u32(seq![43u8] + d) == parse_u32(d),
        d.len() > 0 && d[0] != 43 && parse_u32(d) is Some && parse_u32(d).unwrap() * 10 + (b - 48)
            <= u32::MAX ==> parse_u32(d.push(b)) == Some((parse_u32(d).unwrap() * 10 + (b - 48)) as u32),
{
    assert(seq![b].drop_last() =~= Seq::<u8>::empty());
    assert(seq![b].last() == b);
    assert(digits_value(seq![b]) == digits_value(Seq::<u8>::empty()) * 10 + (b - 48));
    assert(unsigned_digits(seq![b]) == seq![b]);
    assert(forall|i: int| 0 <= i < seq![b].len() ==> is_digit(#[trigger] seq![b][i]));
    if d.len() > 0 && d[0] != 43 {
        assert((seq![43u8] + d).drop_first() =~= d);
        let e = d.push(b);
        assert(e.drop_last() =~= d);
        assert(unsigned_digits(e) == e);
        assert(unsigned_digits(d) == d);
        assert(e.last() == b);
        assert(digits_value(e) == digits_value(d) * 10 + (b - 48));
        if parse_u32(d) is Some {
            lemma_digits_value_prefix(d, d.len() as int);
            assert(d.subrange(0, d.len() as int) =~= d);
            assert(parse_u32(d).unwrap() as int == digits_value(d));
            assert(e[d.len() as int] == b);
            assert forall|i: int| 0 <= i < e.len() implies is_digit(#[trigger] e[i]) by {
                if i < d.len() {
                    assert(e[i] == d[i]);
                }
            }
            assert(e.len() > 0);
        }
    }
}

/// Whether `a` holds the characters of `lit`.
pub fn is_arg(a: &String, lit: &str) -> (r: bool)
    ensures
        r == (a@ == lit@),
{
    let x = a.as_str().as_bytes();
    let y = lit.as_bytes();
    proof {
        vstd::utf8::encode_utf8_decode_utf8(a@);
        vstd::utf8::encode_utf8_decode_utf8(lit@);
    }
    if x.len() != y.len() {
        return false;
    }
    let mut i: usize = 0;
    while i < x.len()
        invariant
            x@.len() == y@.len(),
            x@ == vstd::utf8::encode_utf8(a@),
            y@ == vstd::utf8::encode_utf8(lit@),
            i <= x@.len(),
            forall|j: int| 0 <= j < i ==> x@[j] == y@[j],
        decreases x@.len() - i,
    {
        if x[i] != y[i] {
            return false;
        }
        i = i + 1;
    }
    assert(x@ =~= y@);
    true
}

fn quality_of(v: &Option<String>) -> (q: Quality)
    ensures
        q == quality_named(chars_of(*v)),
{
    match v {
        Some(s) => if is_arg(s, "low") {
            Quality::Low
        } else if is_arg(s, "medium") {
            Quality::Medium
        } else {
            Quality::High
        },
        None => Quality::High,
    }
}

fn frames_of(v: &Option<String>) -> (n: u32)
    ensures
        n == frames_named(chars_of(*v)),
{
    match v {
        Some(s) => match parse_u32_bytes(s.as_str().as_bytes()) {
            Some(n) => n,
            None => 90,
        },
        None => 90,
    }
}

impl AppConfig {
    /// Reads the command line (the arguments after the program name).
    /// `Help` where `-h` or `--help` comes before the end; otherwise the
    /// configuration that the options set, left to right, over the defaults,
    /// with the unknown arguments listed.
    pub fn from_args(args: Vec<String>) -> (r: ArgsOutcome)
        ensures
            match spec_from_args(args.deep_view()) {
                None => r is Help,
                Some((c, u)) => match r {
                    ArgsOutcome::Run { config, unknown } => config.model() == c
                        && unknown.deep_view() == u,
                    ArgsOutcome::Help => false,
                },
            },
    {
        let mut cfg = AppConfig {
            low_power: false,
            windowed: false,
            wallpaper: false,
            no_sleep: false,
            dof: false,
            quality: Quality::High,
            view: None,
            screenshot: None,
            frames: 90,
        };
        let mut unknown: Vec<String> = Vec::new();
        let ghost all = args.deep_view();
        let n = args.len();
        let mut i: usize = 0;
        assert(unknown.deep_view() =~= seq![]);
        assert(all.subrange(0, n as int) =~= all);
        while i < n
            invariant
                n == args@.len(),
                all == args.deep_view(),
                i <= n,
                read_args(default_model(), seq![], all) == read_args(
                    cfg.model(),
                    unknown.deep_view(),
                    all.subrange(i as int, n as int),
                ),
            decreases n - i,
        {
            let ghost before = all.subrange(i as int, n as int);
            let ghost rest = before.drop_first();
            assert(rest =~= all.subrange(i + 1, n as int));
            let a = &args[i];
            i = i + 1;
            let value: Option<String> = if i < n {
                Some(args[i].clone())
            } else {
                None
            };
            assert(chars_of(value) == value_after(rest));
            assert(after_value(rest) =~= all.subrange(if i < n { i + 1 } else { i as int }, n as int));
            if is_arg(a, "--low-power") {
                cfg.low_power = true;
            } else if is_arg(a, "--windowed") {
                cfg.windowed = true;
            } else if is_arg(a, "--wallpaper") {
                cfg.wallpaper = true;
            } else if is_arg(a, "--no-sleep") {
                cfg.no_sleep = true;
            } else if is_arg(a, "--dof") {
                cfg.dof = true;
            } else if is_arg(a, "--quality") {
                cfg.quality = quality_of(&value);
                if i < n {
                    i = i + 1;
                }
            } else if is_arg(a, "--view") {
                cfg.view = value;
                if i < n {
                    i = i + 1;
                }
            } else if is_arg(a, "--screenshot") {
                cfg.screenshot = value;
                cfg.windowed = true;
                if i < n {
                    i = i + 1;
                }
            } else if is_arg(a, "--frames") {
                cfg.frames = frames_of(&value);
                if i < n {
                    i = i + 1;
                }
            } else if is_arg(a, "-h") || is_arg(a, "--help") {
                return ArgsOutcome::Help;
            } else {
                let ghost u0 = unknown.deep_view();
                unknown.push(a.clone());
                assert(unknown.deep_view() =~= u0.push(a@));
            }
        }
        assert(all.subrange(n as int, n as int) =~= seq![]);
        if cfg.low_power && cfg.quality == Quality::High {
            cfg.quality = Quality::Medium;
        }
        ArgsOutcome::Run { config: cfg, unknown }
    }
}

} // verus!
