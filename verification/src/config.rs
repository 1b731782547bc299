//! The command line's grammar: which arguments are flags, which flags take a value, the
//! options that may follow `--diff`, what is left over as unknown, what the plain-valued
//! switches come to, and the edit journal's files that a command line names, with when
//! opening them is refused.

use crate::block::SLOTS;
use crate::lod::FadeSchedule;
use crate::journal::{digits_value, lemma_digits_grow, unsigned};
use crate::text::{chars_of, eq_text, is_digit};
use vstd::prelude::*;

verus! {

/// Flags that take the argument after them as their value.
pub open spec fn value_flag(a: Seq<char>) -> bool {
    a == "--seed"@
        || a == "--sea-level"@
        || a == "--water-absorb"@
        || a == "--water-mottle"@
        || a == "--water-sec-scale"@
        || a == "--tone-map"@
        || a == "--grade"@
        || a == "--grade-strength"@
        || a == "--canopy-lift"@
        || a == "--sun-softness"@
        || a == "--surface-debug"@
        || a == "--shaft-texel"@
        || a == "--cloud-patch"@
        || a == "--cloud-relief"@
        || a == "--haze-warm"@
        || a == "--zenith-deep"@
        || a == "--tint-strength"@
        || a == "--wave-amp"@
        || a == "--wave-scale"@
        || a == "--wave-speed"@
        || a == "--probe-fill"@
        || a == "--shadow-dist"@
        || a == "--wave-clamp"@
        || a == "--width"@
        || a == "--height"@
        || a == "--scale"@
        || a == "--jitter"@
        || a == "--taa-frames"@
        || a == "--mip-bias"@
        || a == "--reference"@
        || a == "--fov"@
        || a == "--view-distance"@
        || a == "--max-lod"@
        || a == "--streaming-factor"@
        || a == "--fade-band"@
        || a == "--fade-schedule"@
        || a == "--time"@
        || a == "--cam-height"@
        || a == "--cam-yaw"@
        || a == "--cam-pitch"@
        || a == "--cam-spin"@
        || a == "--cam-dolly"@
        || a == "--anim-time"@
        || a == "--anim-rate"@
        || a == "--cam-submerge"@
        || a == "--load-edits"@
        || a == "--save-edits"@
        || a == "--edits"@
        || a == "--bar"@
        || a == "--hotbar"@
        || a == "--ambient"@
        || a == "--fog-density"@
        || a == "--fog-falloff"@
        || a == "--fog-scatter"@
        || a == "--fog-g"@
        || a == "--cloud-cover"@
        || a == "--cloud-height"@
        || a == "--cloud-scale"@
        || a == "--cloud-speed"@
        || a == "--godray-strength"@
        || a == "--godray-steps"@
        || a == "--godray-dist"@
        || a == "--cloud-shadow"@
}

/// Flags that stand alone.
pub open spec fn switch_flag(a: Seq<char>) -> bool {
    a == "--no-water"@
        || a == "--no-water-reflect"@
        || a == "--no-water-refract"@
        || a == "--no-shore-wet"@
        || a == "--no-shore-foam"@
        || a == "--no-water-sec"@
        || a == "--sky-cool"@
        || a == "--water-look"@
        || a == "--foliage-rich"@
        || a == "--canopy-relief"@
        || a == "--caustics"@
        || a == "--glass-reflect"@
        || a == "--tree-blue-noise"@
        || a == "--meadow-side"@
        || a == "--grass-dense"@
        || a == "--wind-sway"@
        || a == "--soft-shadows"@
        || a == "--no-soft-shadows"@
        || a == "--no-wind-sway"@
        || a == "--no-water-look"@
        || a == "--no-glass-reflect"@
        || a == "--isolate-glass"@
        || a == "--no-isolate-glass"@
        || a == "--legacy-lighting"@
        || a == "--repaired-lighting"@
        || a == "--legacy-water"@
        || a == "--repaired-water"@
        || a == "--soft-shadow-hq"@
        || a == "--no-soft-shadow-hq"@
        || a == "--shadow-pass"@
        || a == "--no-shadow-pass"@
        || a == "--compact-shade-hit"@
        || a == "--no-compact-shade-hit"@
        || a == "--snell-bend"@
        || a == "--tint-balance"@
        || a == "--no-biomes"@
        || a == "--no-foliage"@
        || a == "--no-meadow"@
        || a == "--no-probe-shadow"@
        || a == "--no-tint"@
        || a == "--no-waves"@
        || a == "--no-wave-aniso"@
        || a == "--no-wave-shoal"@
        || a == "--no-wave-fill"@
        || a == "--no-terrain-shafts"@
        || a == "--no-tex-variation"@
        || a == "--no-leaf-cutout"@
        || a == "--no-flat-secondary"@
        || a == "--no-water-far"@
        || a == "--no-water-dark"@
        || a == "--no-snell"@
        || a == "--probe-tap"@
        || a == "--probe-ambient"@
        || a == "--no-probe-cube"@
        || a == "--no-probe-bounce"@
        || a == "--no-probe-sun"@
        || a == "--probe-sun-high"@
        || a == "--no-light-rgb"@
        || a == "--no-sky-tint"@
        || a == "--no-sky-specular"@
        || a == "--no-full-march"@
        || a == "--probe-noise"@
        || a == "--march-stats"@
        || a == "--no-glass"@
        || a == "--no-distant-shadows"@
        || a == "--no-water-shadow-cut"@
        || a == "--no-leaf-thin"@
        || a == "--no-taa"@
        || a == "--no-fade"@
        || a == "--no-shadow-share"@
        || a == "--no-offscreen-shadows"@
        || a == "--no-vsync"@
        || a == "--no-idle-repaint"@
        || a == "--no-shadows"@
        || a == "--no-hiz"@
        || a == "--hud"@
        || a == "--demo-edits"@
        || a == "--demo-glass"@
        || a == "--demo-lamps"@
        || a == "--resume"@
        || a == "--no-exit-save"@
        || a == "--no-ao"@
        || a == "--no-physics"@
}

fn is_value_flag(c: &Vec<char>) -> (b: bool)
    ensures
        b == value_flag(c@),
{
    let n = c.len();
    assert(c@.subrange(0, n as int) =~= c@);
    eq_text(c, 0, n, "--seed")
        || eq_text(c, 0, n, "--sea-level")
        || eq_text(c, 0, n, "--water-absorb")
        || eq_text(c, 0, n, "--water-mottle")
        || eq_text(c, 0, n, "--water-sec-scale")
        || eq_text(c, 0, n, "--tone-map")
        || eq_text(c, 0, n, "--grade")
        || eq_text(c, 0, n, "--grade-strength")
        || eq_text(c, 0, n, "--canopy-lift")
        || eq_text(c, 0, n, "--sun-softness")
        || eq_text(c, 0, n, "--surface-debug")
        || eq_text(c, 0, n, "--shaft-texel")
        || eq_text(c, 0, n, "--cloud-patch")
        || eq_text(c, 0, n, "--cloud-relief")
        || eq_text(c, 0, n, "--haze-warm")
        || eq_text(c, 0, n, "--zenith-deep")
        || eq_text(c, 0, n, "--tint-strength")
        || eq_text(c, 0, n, "--wave-amp")
        || eq_text(c, 0, n, "--wave-scale")
        || eq_text(c, 0, n, "--wave-speed")
        || eq_text(c, 0, n, "--probe-fill")
        || eq_text(c, 0, n, "--shadow-dist")
        || eq_text(c, 0, n, "--wave-clamp")
        || eq_text(c, 0, n, "--width")
        || eq_text(c, 0, n, "--height")
        || eq_text(c, 0, n, "--scale")
        || eq_text(c, 0, n, "--jitter")
        || eq_text(c, 0, n, "--taa-frames")
        || eq_text(c, 0, n, "--mip-bias")
        || eq_text(c, 0, n, "--reference")
        || eq_text(c, 0, n, "--fov")
        || eq_text(c, 0, n, "--view-distance")
        || eq_text(c, 0, n, "--max-lod")
        || eq_text(c, 0, n, "--streaming-factor")
        || eq_text(c, 0, n, "--fade-band")
        || eq_text(c, 0, n, "--fade-schedule")
        || eq_text(c, 0, n, "--time")
        || eq_text(c, 0, n, "--cam-height")
        || eq_text(c, 0, n, "--cam-yaw")
        || eq_text(c, 0, n, "--cam-pitch")
        || eq_text(c, 0, n, "--cam-spin")
        || eq_text(c, 0, n, "--cam-dolly")
        || eq_text(c, 0, n, "--anim-time")
        || eq_text(c, 0, n, "--anim-rate")
        || eq_text(c, 0, n, "--cam-submerge")
        || eq_text(c, 0, n, "--load-edits")
        || eq_text(c, 0, n, "--save-edits")
        || eq_text(c, 0, n, "--edits")
        || eq_text(c, 0, n, "--bar")
        || eq_text(c, 0, n, "--hotbar")
        || eq_text(c, 0, n, "--ambient")
        || eq_text(c, 0, n, "--fog-density")
        || eq_text(c, 0, n, "--fog-falloff")
        || eq_text(c, 0, n, "--fog-scatter")
        || eq_text(c, 0, n, "--fog-g")
        || eq_text(c, 0, n, "--cloud-cover")
        || eq_text(c, 0, n, "--cloud-height")
        || eq_text(c, 0, n, "--cloud-scale")
        || eq_text(c, 0, n, "--cloud-speed")
        || eq_text(c, 0, n, "--godray-strength")
        || eq_text(c, 0, n, "--godray-steps")
        || eq_text(c, 0, n, "--godray-dist")
        || eq_text(c, 0, n, "--cloud-shadow")
}

fn is_switch_flag(c: &Vec<char>) -> (b: bool)
    ensures
        b == switch_flag(c@),
{
    let n = c.len();
    assert(c@.subrange(0, n as int) =~= c@);
    eq_text(c, 0, n, "--no-water")
        || eq_text(c, 0, n, "--no-water-reflect")
        || eq_text(c, 0, n, "--no-water-refract")
        || eq_text(c, 0, n, "--no-shore-wet")
        || eq_text(c, 0, n, "--no-shore-foam")
        || eq_text(c, 0, n, "--no-water-sec")
        || eq_text(c, 0, n, "--sky-cool")
        || eq_text(c, 0, n, "--water-look")
        || eq_text(c, 0, n, "--foliage-rich")
        || eq_text(c, 0, n, "--canopy-relief")
        || eq_text(c, 0, n, "--caustics")
        || eq_text(c, 0, n, "--glass-reflect")
        || eq_text(c, 0, n, "--tree-blue-noise")
        || eq_text(c, 0, n, "--meadow-side")
        || eq_text(c, 0, n, "--grass-dense")
        || eq_text(c, 0, n, "--wind-sway")
        || eq_text(c, 0, n, "--soft-shadows")
        || eq_text(c, 0, n, "--no-soft-shadows")
        || eq_text(c, 0, n, "--no-wind-sway")
        || eq_text(c, 0, n, "--no-water-look")
        || eq_text(c, 0, n, "--no-glass-reflect")
        || eq_text(c, 0, n, "--isolate-glass")
        || eq_text(c, 0, n, "--no-isolate-glass")
        || eq_text(c, 0, n, "--legacy-lighting")
        || eq_text(c, 0, n, "--repaired-lighting")
        || eq_text(c, 0, n, "--legacy-water")
        || eq_text(c, 0, n, "--repaired-water")
        || eq_text(c, 0, n, "--soft-shadow-hq")
        || eq_text(c, 0, n, "--no-soft-shadow-hq")
        || eq_text(c, 0, n, "--shadow-pass")
        || eq_text(c, 0, n, "--no-shadow-pass")
        || eq_text(c, 0, n, "--compact-shade-hit")
        || eq_text(c, 0, n, "--no-compact-shade-hit")
        || eq_text(c, 0, n, "--snell-bend")
        || eq_text(c, 0, n, "--tint-balance")
        || eq_text(c, 0, n, "--no-biomes")
        || eq_text(c, 0, n, "--no-foliage")
        || eq_text(c, 0, n, "--no-meadow")
        || eq_text(c, 0, n, "--no-probe-shadow")
        || eq_text(c, 0, n, "--no-tint")
        || eq_text(c, 0, n, "--no-waves")
        || eq_text(c, 0, n, "--no-wave-aniso")
        || eq_text(c, 0, n, "--no-wave-shoal")
        || eq_text(c, 0, n, "--no-wave-fill")
        || eq_text(c, 0, n, "--no-terrain-shafts")
        || eq_text(c, 0, n, "--no-tex-variation")
        || eq_text(c, 0, n, "--no-leaf-cutout")
        || eq_text(c, 0, n, "--no-flat-secondary")
        || eq_text(c, 0, n, "--no-water-far")
        || eq_text(c, 0, n, "--no-water-dark")
        || eq_text(c, 0, n, "--no-snell")
        || eq_text(c, 0, n, "--probe-tap")
        || eq_text(c, 0, n, "--probe-ambient")
        || eq_text(c, 0, n, "--no-probe-cube")
        || eq_text(c, 0, n, "--no-probe-bounce")
        || eq_text(c, 0, n, "--no-probe-sun")
        || eq_text(c, 0, n, "--probe-sun-high")
        || eq_text(c, 0, n, "--no-light-rgb")
        || eq_text(c, 0, n, "--no-sky-tint")
        || eq_text(c, 0, n, "--no-sky-specular")
        || eq_text(c, 0, n, "--no-full-march")
        || eq_text(c, 0, n, "--probe-noise")
        || eq_text(c, 0, n, "--march-stats")
        || eq_text(c, 0, n, "--no-glass")
        || eq_text(c, 0, n, "--no-distant-shadows")
        || eq_text(c, 0, n, "--no-water-shadow-cut")
        || eq_text(c, 0, n, "--no-leaf-thin")
        || eq_text(c, 0, n, "--no-taa")
        || eq_text(c, 0, n, "--no-fade")
        || eq_text(c, 0, n, "--no-shadow-share")
        || eq_text(c, 0, n, "--no-offscreen-shadows")
        || eq_text(c, 0, n, "--no-vsync")
        || eq_text(c, 0, n, "--no-idle-repaint")
        || eq_text(c, 0, n, "--no-shadows")
        || eq_text(c, 0, n, "--no-hiz")
        || eq_text(c, 0, n, "--hud")
        || eq_text(c, 0, n, "--demo-edits")
        || eq_text(c, 0, n, "--demo-glass")
        || eq_text(c, 0, n, "--demo-lamps")
        || eq_text(c, 0, n, "--resume")
        || eq_text(c, 0, n, "--no-exit-save")
        || eq_text(c, 0, n, "--no-ao")
        || eq_text(c, 0, n, "--no-physics")
}

/// What an argument in a flag's place is.
#[derive(Clone, Copy, Debug, PartialEq, Eq, Structural)]
pub enum ArgKind {
    Screenshot,
    Lookbook,
    BenchFrames,
    Diff,
    BenchTerrain,
    /// A flag that takes a value.
    Value,
    /// A flag that stands alone.
    Switch,
    Help,
    Unknown,
}

/// What the argument `a` is.
pub open spec fn arg_kind(a: Seq<char>) -> ArgKind {
    if a == "--screenshot"@ {
        ArgKind::Screenshot
    } else if a == "--lookbook"@ {
        ArgKind::Lookbook
    } else if a == "--bench-frames"@ {
        ArgKind::BenchFrames
    } else if a == "--diff"@ {
        ArgKind::Diff
    } else if a == "--bench-terrain"@ {
        ArgKind::BenchTerrain
    } else if value_flag(a) {
        ArgKind::Value
    } else if switch_flag(a) {
        ArgKind::Switch
    } else if a == "--help"@ || a == "-h"@ {
        ArgKind::Help
    } else {
        ArgKind::Unknown
    }
}

pub fn kind_of(a: &str) -> (k: ArgKind)
    ensures
        k == arg_kind(a@),
{
    let c = chars_of(a);
    if is_text(&c, "--screenshot") {
        ArgKind::Screenshot
    } else if is_text(&c, "--lookbook") {
        ArgKind::Lookbook
    } else if is_text(&c, "--bench-frames") {
        ArgKind::BenchFrames
    } else if is_text(&c, "--diff") {
        ArgKind::Diff
    } else if is_text(&c, "--bench-terrain") {
        ArgKind::BenchTerrain
    } else if is_value_flag(&c) {
        ArgKind::Value
    } else if is_switch_flag(&c) {
        ArgKind::Switch
    } else if is_text(&c, "--help") || is_text(&c, "-h") {
        ArgKind::Help
    } else {
        ArgKind::Unknown
    }
}

/// What the command line asks to be done, with the text each mode was given.
#[derive(Clone, Debug, PartialEq)]
pub enum RunMode {
    Run,
    Screenshot(String),
    Lookbook(String),
    BenchTerrain(String),
    BenchFrames(String),
    /// Compare two captures, with the `--grid` and `--crop` options that followed, in order.
    Diff(String, String, Vec<(String, String)>),
}

/// A run mode with its texts as character sequences.
pub enum ModeView {
    Run,
    Screenshot(Seq<char>),
    Lookbook(Seq<char>),
    BenchTerrain(Seq<char>),
    BenchFrames(Seq<char>),
    Diff(Seq<char>, Seq<char>, Seq<(Seq<char>, Seq<char>)>),
}

pub open spec fn pair_views(v: Seq<(String, String)>) -> Seq<(Seq<char>, Seq<char>)> {
    v.map_values(|p: (String, String)| (p.0@, p.1@))
}

impl View for RunMode {
    type V = ModeView;

    open spec fn view(&self) -> ModeView {
        match self {
            RunMode::Run => ModeView::Run,
            RunMode::Screenshot(p) => ModeView::Screenshot(p@),
            RunMode::Lookbook(d) => ModeView::Lookbook(d@),
            RunMode::BenchTerrain(n) => ModeView::BenchTerrain(n@),
            RunMode::BenchFrames(n) => ModeView::BenchFrames(n@),
            RunMode::Diff(a, b, o) => ModeView::Diff(a@, b@, pair_views(o@)),
        }
    }
}

/// The command line read: the mode (the last one given wins), each flag in order with the
/// value it took, the arguments that are no flag, and whether help was asked for, which ends
/// the reading.
#[derive(Clone, Debug, PartialEq)]
pub struct ArgScan {
    pub mode: RunMode,
    pub settings: Vec<(String, Option<String>)>,
    pub unknown: Vec<String>,
    pub help: bool,
}

#[verifier::ext_equal]
pub struct ScanView {
    pub mode: ModeView,
    pub settings: Seq<(Seq<char>, Option<Seq<char>>)>,
    pub unknown: Seq<Seq<char>>,
    pub help: bool,
}

pub open spec fn setting_views(v: Seq<(String, Option<String>)>) -> Seq<(Seq<char>, Option<Seq<char>>)> {
    v.map_values(
        |p: (String, Option<String>)|
            (
                p.0@,
                match p.1 {
                    Some(t) => Some(t@),
                    None => None,
                },
            ),
    )
}

pub open spec fn text_views(v: Seq<String>) -> Seq<Seq<char>> {
    v.map_values(|t: String| t@)
}

impl View for ArgScan {
    type V = ScanView;

    open spec fn view(&self) -> ScanView {
        ScanView {
            mode: self.mode@,
            settings: setting_views(self.settings@),
            unknown: text_views(self.unknown@),
            help: self.help,
        }
    }
}

/// The argument at `i`, or the empty text past the end.
pub open spec fn arg_at(args: Seq<Seq<char>>, i: int) -> Seq<char> {
    if 0 <= i < args.len() {
        args[i]
    } else {
        Seq::empty()
    }
}

/// The `--grid` and `--crop` options, each with its value, that follow position `j`.
pub open spec fn diff_options(args: Seq<Seq<char>>, j: int) -> Seq<(Seq<char>, Seq<char>)>
    decreases args.len() - j,
{
    if 0 <= j && j + 1 < args.len() && (args[j + 1] == "--grid"@ || args[j + 1] == "--crop"@) {
        seq![(args[j + 1], arg_at(args, j + 2))] + diff_options(args, j + 2)
    } else {
        Seq::empty()
    }
}

/// Reading the arguments from position `i` on top of `st`.
pub open spec fn scan_from(args: Seq<Seq<char>>, i: int, st: ScanView) -> ScanView
    decreases args.len() - i,
{
    if i < 0 || i >= args.len() {
        st
    } else {
        let a = args[i];
        let v = arg_at(args, i + 1);
        let (next, st2) = match arg_kind(a) {
            ArgKind::Screenshot => (i + 2, ScanView { mode: ModeView::Screenshot(v), ..st }),
            ArgKind::Lookbook => (i + 2, ScanView { mode: ModeView::Lookbook(v), ..st }),
            ArgKind::BenchFrames => (i + 2, ScanView { mode: ModeView::BenchFrames(v), ..st }),
            ArgKind::Diff => {
                let o = diff_options(args, i + 2);
                (
                    i + 3 + 2 * o.len(),
                    ScanView { mode: ModeView::Diff(v, arg_at(args, i + 2), o), ..st },
                )
            },
            ArgKind::BenchTerrain => (i + 2, ScanView { mode: ModeView::BenchTerrain(v), ..st }),
            ArgKind::Value => (i + 2, ScanView { settings: st.settings.push((a, Some(v))), ..st }),
            ArgKind::Switch => (i + 1, ScanView { settings: st.settings.push((a, None)), ..st }),
            ArgKind::Help => (args.len() as int, ScanView { help: true, ..st }),
            ArgKind::Unknown => (i + 1, ScanView { unknown: st.unknown.push(a), ..st }),
        };
        if next < args.len() {
            scan_from(args, next, st2)
        } else {
            st2
        }
    }
}

/// What the command line `args` asks for.
pub open spec fn args_outcome(args: Seq<Seq<char>>) -> ScanView {
    scan_from(
        args,
        0,
        ScanView { mode: ModeView::Run, settings: Seq::empty(), unknown: Seq::empty(), help: false },
    )
}

pub open spec fn scan_view(
    mode: RunMode,
    settings: Seq<(String, Option<String>)>,
    unknown: Seq<String>,
    help: bool,
) -> ScanView {
    ScanView { mode: mode@, settings: setting_views(settings), unknown: text_views(unknown), help }
}

/// Whether the characters `c` spell `lit`.
fn is_text(c: &Vec<char>, lit: &str) -> (b: bool)
    ensures
        b == (c@ == lit@),
{
    let n = c.len();
    assert(c@.subrange(0, n as int) =~= c@);
    eq_text(c, 0, n, lit)
}

/// The argument at `i`, or the empty text past the end.
fn arg_text(args: &Vec<String>, i: usize) -> (t: String)
    ensures
        t@ == arg_at(text_views(args@), i as int),
{
    if i < args.len() {
        args[i].clone()
    } else {
        String::new()
    }
}

/// Read a command line: each argument is a mode, a flag (with the argument after it as its
/// value, for a flag that takes one), `--help`, or unknown.
#[verifier::rlimit(40)]
pub fn scan_args(args: &Vec<String>) -> (r: ArgScan)
    ensures
        r@ == args_outcome(text_views(args@)),
{
    let ghost av = text_views(args@);
    let n = args.len();
    let mut mode = RunMode::Run;
    let mut settings: Vec<(String, Option<String>)> = Vec::new();
    let mut unknown: Vec<String> = Vec::new();
    let mut help = false;
    let mut i: usize = 0;
    assert(setting_views(settings@) =~= Seq::<(Seq<char>, Option<Seq<char>>)>::empty());
    assert(text_views(unknown@) =~= Seq::<Seq<char>>::empty());
    while i < n
        invariant
            n == args@.len(),
            av == text_views(args@),
            i <= n,
            args_outcome(av) == scan_from(av, i as int, scan_view(mode, settings@, unknown@, help)),
        decreases n - i,
    {
        let ghost st = scan_view(mode, settings@, unknown@, help);
        let ghost s0 = settings@;
        let ghost u0 = unknown@;
        let kind = kind_of(args[i].as_str());
        let v = arg_text(args, i + 1);
        let past_value: usize = if i + 1 < n { i + 2 } else { n };
        if kind == ArgKind::Screenshot {
            mode = RunMode::Screenshot(v);
            i = past_value;
        } else if kind == ArgKind::Lookbook {
            mode = RunMode::Lookbook(v);
            i = past_value;
        } else if kind == ArgKind::BenchFrames {
            mode = RunMode::BenchFrames(v);
            i = past_value;
        } else if kind == ArgKind::Diff {
            let b = if i + 1 < n { arg_text(args, i + 2) } else { String::new() };
            let mut opts: Vec<(String, String)> = Vec::new();
            let ghost start = i + 2;
            let ghost mut jj: int = i + 2;
            let mut j: usize = if n - i > 2 { i + 2 } else { n };
            assert(pair_views(opts@) =~= Seq::<(Seq<char>, Seq<char>)>::empty());
            assert(diff_options(av, start) =~= pair_views(opts@) + diff_options(av, jj));
            while n - j > 1 && (is_text(&chars_of(args[j + 1].as_str()), "--grid") || is_text(
                &chars_of(args[j + 1].as_str()),
                "--crop",
            ))
                invariant
                    n == args@.len(),
                    av == text_views(args@),
                    i < n,
                    start == i + 2,
                    jj == start + 2 * opts@.len(),
                    j == if jj < n { jj } else { n as int },
                    diff_options(av, start) == pair_views(opts@) + diff_options(av, jj),
                decreases n - j,
            {
                let ghost o0 = opts@;
                let name = args[j + 1].clone();
                let value = arg_text(args, j + 2);
                assert(diff_options(av, jj) == seq![(av[jj + 1], arg_at(av, jj + 2))] + diff_options(av, jj + 2));
                opts.push((name, value));
                assert(pair_views(opts@) =~= pair_views(o0).push((av[jj + 1], arg_at(av, jj + 2))));
                proof {
                    jj = jj + 2;
                }
                j = if j + 2 < n { j + 2 } else { n };
                assert(pair_views(opts@) + diff_options(av, jj) =~= pair_views(o0) + (seq![(av[jj - 1], arg_at(av, jj))] + diff_options(av, jj)));
            }
            assert(diff_options(av, jj) =~= Seq::<(Seq<char>, Seq<char>)>::empty());
            assert(pair_views(opts@) + diff_options(av, jj) =~= pair_views(opts@));
            mode = RunMode::Diff(v, b, opts);
            i = if j < n { j + 1 } else { n };
        } else if kind == ArgKind::BenchTerrain {
            mode = RunMode::BenchTerrain(v);
            i = past_value;
        } else if kind == ArgKind::Value {
            settings.push((args[i].clone(), Some(v)));
            assert(setting_views(settings@) =~= setting_views(s0).push((av[i as int], Some(arg_at(av, i + 1)))));
            i = past_value;
        } else if kind == ArgKind::Switch {
            settings.push((args[i].clone(), None));
            assert(setting_views(settings@) =~= setting_views(s0).push((av[i as int], None)));
            i = i + 1;
        } else if kind == ArgKind::Help {
            help = true;
            i = n;
        } else {
            unknown.push(args[i].clone());
            assert(text_views(unknown@) =~= text_views(u0).push(av[i as int]));
            i = i + 1;
        }
    }
    ArgScan { mode, settings, unknown, help }
}

/// The arguments that spell one setting: its flag, then its value if it has one.
pub open spec fn setting_args(e: (Seq<char>, Option<Seq<char>>)) -> Seq<Seq<char>> {
    match e.1 {
        Some(v) => seq![e.0, v],
        None => seq![e.0],
    }
}

/// The command line that spells `ss` in order.
pub open spec fn command_line(ss: Seq<(Seq<char>, Option<Seq<char>>)>) -> Seq<Seq<char>>
    decreases ss.len(),
{
    if ss.len() == 0 {
        Seq::empty()
    } else {
        setting_args(ss[0]) + command_line(ss.drop_first())
    }
}

/// Whether `e` is a flag that stands alone without a value, or one that takes a value with
/// one.
pub open spec fn known_setting(e: (Seq<char>, Option<Seq<char>>)) -> bool {
    match e.1 {
        Some(_) => arg_kind(e.0) == ArgKind::Value,
        None => arg_kind(e.0) == ArgKind::Switch,
    }
}

proof fn lemma_scan_settings(p: Seq<Seq<char>>, ss: Seq<(Seq<char>, Option<Seq<char>>)>, st: ScanView)
    requires
        forall|k: int| 0 <= k < ss.len() ==> known_setting(#[trigger] ss[k]),
    ensures
        scan_from(p + command_line(ss), p.len() as int, st) == (ScanView {
            settings: st.settings + ss,
            ..st
        }),
    decreases ss.len(),
{
    let args = p + command_line(ss);
    if ss.len() == 0 {
        assert(args =~= p);
        assert(st.settings + ss =~= st.settings);
    } else {
        let e = ss[0];
        let rest = ss.drop_first();
        assert forall|k: int| 0 <= k < rest.len() implies known_setting(#[trigger] rest[k]) by {
            assert(rest[k] == ss[k + 1]);
        }
        assert(known_setting(ss[0]));
        let p2 = p + setting_args(e);
        assert(args =~= p2 + command_line(rest));
        let st2 = ScanView { settings: st.settings.push(e), ..st };
        lemma_scan_settings(p2, rest, st2);
        let i = p.len() as int;
        assert(args[i] == e.0);
        match e.1 {
            Some(v) => {
                assert(args[i + 1] == v);
            },
            None => {},
        }
        assert(st2.settings + rest =~= st.settings + ss);
    }
}

/// A command line made of known flags, each flag that takes a value followed by it, reads as
/// exactly those flags and values, in order, with nothing unknown.
pub proof fn law_known_flags_read_back(ss: Seq<(Seq<char>, Option<Seq<char>>)>)
    requires
        forall|k: int| 0 <= k < ss.len() ==> known_setting(#[trigger] ss[k]),
    ensures
        args_outcome(command_line(ss)) == (ScanView {
            mode: ModeView::Run,
            settings: ss,
            unknown: Seq::empty(),
            help: false,
        }),
{
    let init = ScanView { mode: ModeView::Run, settings: Seq::empty(), unknown: Seq::empty(), help: false };
    lemma_scan_settings(Seq::empty(), ss, init);
    assert(Seq::<Seq<char>>::empty() + command_line(ss) =~= command_line(ss));
    assert(Seq::<(Seq<char>, Option<Seq<char>>)>::empty() + ss =~= ss);
}

// ------------------------------------------------------------------ the edit journal's files

/// The value the last setting of flag `f` took, if `f` was given.
pub open spec fn last_value(settings: Seq<(Seq<char>, Option<Seq<char>>)>, f: Seq<char>) -> Option<Seq<char>>
    decreases settings.len(),
{
    if settings.len() == 0 {
        None
    } else if settings.last().0 == f {
        settings.last().1
    } else {
        last_value(settings.drop_last(), f)
    }
}

/// Whether flag `f` was given.
pub open spec fn given(settings: Seq<(Seq<char>, Option<Seq<char>>)>, f: Seq<char>) -> bool {
    exists|i: int| 0 <= i < settings.len() && (#[trigger] settings[i]).0 == f
}

/// The journal files a command line names: `--edits` (a world on disk, loaded if there and
/// saved back), `--load-edits`, `--save-edits`, and whether `--no-exit-save` was given.
#[derive(Clone, Debug, PartialEq)]
pub struct JournalArgs {
    pub edits: Option<String>,
    pub load_edits: Option<String>,
    pub save_edits: Option<String>,
    pub no_exit_save: bool,
}

pub open spec fn opt_view(o: Option<String>) -> Option<Seq<char>> {
    match o {
        Some(t) => Some(t@),
        None => None,
    }
}

impl JournalArgs {
    /// The journal to read at start, and whether it must exist: `--edits` wins, and a world
    /// on disk may be missing; a `--load-edits` file must be there.
    pub fn journal_in(&self) -> (r: Option<(String, bool)>)
        ensures
            match r {
                Some((p, strict)) => match self.edits {
                    Some(e) => p@ == e@ && !strict,
                    None => self.load_edits is Some && p@ == self.load_edits->0@ && strict,
                },
                None => self.edits is None && self.load_edits is None,
            },
    {
        match &self.edits {
            Some(p) => Some((p.clone(), false)),
            None => match &self.load_edits {
                Some(p) => Some((p.clone(), true)),
                None => None,
            },
        }
    }

    /// The journal to write when the mode ends: none after `--no-exit-save`, else `--edits`,
    /// else `--save-edits`.
    pub fn journal_out(&self) -> (r: Option<String>)
        ensures
            opt_view(r) == if self.no_exit_save {
                None
            } else if self.edits is Some {
                opt_view(self.edits)
            } else {
                opt_view(self.save_edits)
            },
    {
        if self.no_exit_save {
            return None;
        }
        match &self.edits {
            Some(p) => Some(p.clone()),
            None => match &self.save_edits {
                Some(p) => Some(p.clone()),
                None => None,
            },
        }
    }
}

/// Why a journal could not be opened as the command line asks.
#[derive(Clone, Copy, Debug, PartialEq, Eq, Structural)]
pub enum OpenRefusal {
    /// `--edits` names both halves at one path; `--load-edits` or `--save-edits` came too.
    EditsWithHalves,
    /// `--resume` with no journal to read.
    ResumeWithoutJournal,
    /// `--resume`, but the journal read carries no player.
    ResumeWithoutPlayer,
    /// `--bar` names a bar, but the journal read already carries one.
    BarClash,
}

/// How a journal starts: empty, or read from a file that may have to exist.
#[derive(Clone, Debug)]
pub enum JournalStart {
    Fresh,
    Load { path: String, must_exist: bool },
}

impl JournalArgs {
    /// Whether `--edits` came together with `--load-edits` or `--save-edits`.
    pub open spec fn edits_with_halves(&self) -> bool {
        self.edits is Some && (self.load_edits is Some || self.save_edits is Some)
    }

    /// How the journal starts, before anything is read: refused when `--edits` comes with
    /// either half, or when `--resume` has no journal to read; empty when no journal is
    /// named; else read from [`JournalArgs::journal_in`]'s file.
    pub fn start(&self, resume: bool) -> (r: Result<JournalStart, OpenRefusal>)
        ensures
            self.edits_with_halves() ==> r == Err::<JournalStart, OpenRefusal>(OpenRefusal::EditsWithHalves),
            !self.edits_with_halves() && self.edits is None && self.load_edits is None ==> if resume {
                r == Err::<JournalStart, OpenRefusal>(OpenRefusal::ResumeWithoutJournal)
            } else {
                r matches Ok(JournalStart::Fresh)
            },
            !self.edits_with_halves() && (self.edits is Some || self.load_edits is Some) ==> match r {
                Ok(JournalStart::Load { path, must_exist }) => match self.edits {
                    Some(e) => path@ == e@ && !must_exist,
                    None => path@ == self.load_edits->0@ && must_exist,
                },
                _ => false,
            },
    {
        if self.edits.is_some() && (self.load_edits.is_some() || self.save_edits.is_some()) {
            return Err(OpenRefusal::EditsWithHalves);
        }
        match self.journal_in() {
            Some((path, must_exist)) => Ok(JournalStart::Load { path, must_exist }),
            None => if resume {
                Err(OpenRefusal::ResumeWithoutJournal)
            } else {
                Ok(JournalStart::Fresh)
            },
        }
    }
}

/// What a journal that was read must carry: a player when `--resume` asks to start where it
/// was, and no bar of its own when `--bar` names one.
pub fn check_loaded(resume: bool, has_player: bool, bar_flag: bool, has_bar: bool) -> (r: Result<(), OpenRefusal>)
    ensures
        r == if resume && !has_player {
            Err::<(), OpenRefusal>(OpenRefusal::ResumeWithoutPlayer)
        } else if bar_flag && has_bar {
            Err(OpenRefusal::BarClash)
        } else {
            Ok(())
        },
{
    if resume && !has_player {
        Err(OpenRefusal::ResumeWithoutPlayer)
    } else if bar_flag && has_bar {
        Err(OpenRefusal::BarClash)
    } else {
        Ok(())
    }
}

/// The journal files named in a scanned command line; a later flag overrides an earlier one.
pub fn journal_args(scan: &ArgScan) -> (j: JournalArgs)
    ensures
        opt_view(j.edits) == last_value(scan@.settings, "--edits"@),
        opt_view(j.load_edits) == last_value(scan@.settings, "--load-edits"@),
        opt_view(j.save_edits) == last_value(scan@.settings, "--save-edits"@),
        j.no_exit_save == given(scan@.settings, "--no-exit-save"@),
{
    let ghost sv = scan@.settings;
    let mut j = JournalArgs { edits: None, load_edits: None, save_edits: None, no_exit_save: false };
    let mut i: usize = 0;
    while i < scan.settings.len()
        invariant
            i <= scan.settings@.len(),
            sv == setting_views(scan.settings@),
            opt_view(j.edits) == last_value(sv.take(i as int), "--edits"@),
            opt_view(j.load_edits) == last_value(sv.take(i as int), "--load-edits"@),
            opt_view(j.save_edits) == last_value(sv.take(i as int), "--save-edits"@),
            j.no_exit_save == given(sv.take(i as int), "--no-exit-save"@),
        decreases scan.settings@.len() - i,
    {
        proof {
            reveal_strlit("--edits");
            reveal_strlit("--load-edits");
            reveal_strlit("--save-edits");
            reveal_strlit("--no-exit-save");
            assert("--edits"@.len() == 7 && "--load-edits"@.len() == 12);
            assert("--save-edits"@.len() == 12 && "--no-exit-save"@.len() == 14);
            assert("--load-edits"@[2] == 'l' && "--save-edits"@[2] == 's');
        }
        let ghost prev = sv.take(i as int);
        let ghost cur = sv.take(i + 1);
        assert(cur.drop_last() =~= prev);
        assert(cur.last() == sv[i as int]);
        let (f, v) = &scan.settings[i];
        let c = chars_of(f.as_str());
        assert(c@ == sv[i as int].0);
        let vv = match v {
            Some(t) => Some(t.clone()),
            None => None,
        };
        assert(opt_view(vv) == sv[i as int].1);
        if is_text(&c, "--edits") {
            j.edits = vv;
        } else if is_text(&c, "--load-edits") {
            j.load_edits = vv;
        } else if is_text(&c, "--save-edits") {
            j.save_edits = vv;
        } else if is_text(&c, "--no-exit-save") {
            j.no_exit_save = true;
        }
        proof {
            if given(cur, "--no-exit-save"@) && !given(prev, "--no-exit-save"@) {
                let w = choose|k: int| 0 <= k < cur.len() && (#[trigger] cur[k]).0 == "--no-exit-save"@;
                if w < prev.len() {
                    assert(prev[w] == cur[w]);
                }
            }
            if given(prev, "--no-exit-save"@) {
                let w = choose|k: int| 0 <= k < prev.len() && (#[trigger] prev[k]).0 == "--no-exit-save"@;
                assert(cur[w] == prev[w]);
            }
            if sv[i as int].0 == "--no-exit-save"@ {
                assert(cur[i as int] == sv[i as int]);
            }
        }
        i += 1;
    }
    assert(sv.take(sv.len() as int) =~= sv);
    j
}


// ------------------------------------------------------------------ switches with plain values

/// What the command line's valued switches set, of those that hold plain values: the world
/// seed and sea level, the window size, the frames a screenshot converges over and the side
/// of its reference grid (0 none), the hotbar slot to start on, the scale of the secondary
/// water pass, the light-shaft texel, how soft the sun's shadow edge is (0 normal, 1 narrow,
/// 2 wide), which surface term is drawn alone for debugging (0 none), the ACES tone map and
/// the warm and cine grades, the coarsest level of detail and how levels fade, whether primary shadows use their own pass, and whether the
/// irradiance probe is tapped and lights the ambient term.
#[derive(Clone, Copy, Debug, PartialEq, Eq, Structural)]
pub struct Switches {
    pub seed: i32,
    pub sea_level: i32,
    pub width: u32,
    pub height: u32,
    pub taa_frames: usize,
    pub reference: u32,
    pub shaft_texel: i32,
    pub max_lod: u8,
    pub fade_schedule: FadeSchedule,
    pub tone_map_aces: bool,
    pub grade_warm: bool,
    pub grade_cine: bool,
    pub hotbar: usize,
    pub water_sec_scale: u32,
    pub sun_softness: u32,
    pub surface_debug: u32,
    pub shadow_pass: bool,
    pub probe_tap: bool,
    pub probe_ambient: bool,
}

/// The switches before any flag.
pub open spec fn default_switches() -> Switches {
    Switches {
        seed: 1337,
        sea_level: 128,
        width: 1600,
        height: 900,
        taa_frames: 32,
        reference: 0,
        shaft_texel: 4,
        max_lod: 4,
        fade_schedule: FadeSchedule::Smoothstep,
        tone_map_aces: false,
        grade_warm: false,
        grade_cine: false,
        hotbar: 4,
        water_sec_scale: 2,
        sun_softness: 0,
        surface_debug: 0,
        shadow_pass: true,
        probe_tap: false,
        probe_ambient: false,
    }
}

/// `s` read as an unsigned number the way `str::parse` reads one: an optional `+`, then at
/// least one decimal digit and nothing else. Whether it fits the type is the reader's test.
pub open spec fn parse_nat(s: Seq<char>) -> Option<nat> {
    let d = unsigned(s);
    if d.len() > 0 && forall|i: int| 0 <= i < d.len() ==> is_digit(#[trigger] d[i]) {
        Some(digits_value(d))
    } else {
        None
    }
}

/// `s` read as a signed number the way `str::parse` reads one: an optional sign, then at least
/// one decimal digit and nothing else.
pub open spec fn parse_int(s: Seq<char>) -> Option<int> {
    if s.len() > 0 && s[0] == '-' {
        let d = s.drop_first();
        if d.len() > 0 && forall|i: int| 0 <= i < d.len() ==> is_digit(#[trigger] d[i]) {
            Some(-(digits_value(d) as int))
        } else {
            None
        }
    } else {
        match parse_nat(s) {
            Some(n) => Some(n as int),
            None => None,
        }
    }
}

/// `v` read as an `i32`, else `keep`.
pub open spec fn i32_or(v: Seq<char>, keep: i32) -> i32 {
    match parse_int(v) {
        Some(n) => if i32::MIN <= n <= i32::MAX { n as i32 } else { keep },
        None => keep,
    }
}

/// `v` read as a `u32`, else `keep`.
pub open spec fn u32_or(v: Seq<char>, keep: u32) -> u32 {
    match parse_nat(v) {
        Some(n) => if n <= u32::MAX { n as u32 } else { keep },
        None => keep,
    }
}

/// `v` read as a `u8`, else `keep`.
pub open spec fn u8_or(v: Seq<char>, keep: u8) -> u8 {
    match parse_nat(v) {
        Some(n) => if n <= u8::MAX { n as u8 } else { keep },
        None => keep,
    }
}

/// `v` read as a `usize`, else `keep`.
pub open spec fn usize_or(v: Seq<char>, keep: usize) -> usize {
    match parse_nat(v) {
        Some(n) => if n <= usize::MAX { n as usize } else { keep },
        None => keep,
    }
}

/// `--sun-softness`: `narrow` 1, `wide` 2, anything else normal.
pub open spec fn sun_softness_of(v: Seq<char>) -> u32 {
    if v == "narrow"@ {
        1
    } else if v == "wide"@ {
        2
    } else {
        0
    }
}

/// `--surface-debug`: the term drawn alone, by name; anything else draws none.
pub open spec fn surface_debug_of(v: Seq<char>) -> u32 {
    if v == "normals"@ {
        1
    } else if v == "shadow"@ {
        2
    } else if v == "direct"@ {
        3
    } else if v == "indirect"@ {
        4
    } else if v == "water-faces"@ {
        5
    } else if v == "reflection"@ {
        6
    } else if v == "refraction"@ {
        7
    } else {
        0
    }
}

/// What one flag, with its value, does to the switches. A number that does not read, or does
/// not fit, keeps the value the switch had -- but `--reference` then falls back to 8 and
/// `--shaft-texel` to 4, which is clamped to 1..=64; `--no-water` sets the sea level to 0;
/// `--hotbar` clamps to the last slot; `--water-sec-scale` takes only 1, 2 or 4; an unknown
/// `--fade-schedule` keeps the schedule; `--no-shadow-pass` is retired and leaves the pass
/// on; `--probe-ambient` taps the probe too.
pub open spec fn switch_step(s: Switches, f: Seq<char>, v: Seq<char>) -> Switches {
    if f == "--seed"@ {
        Switches { seed: i32_or(v, s.seed), ..s }
    } else if f == "--sea-level"@ {
        Switches { sea_level: i32_or(v, s.sea_level), ..s }
    } else if f == "--no-water"@ {
        Switches { sea_level: 0, ..s }
    } else if f == "--width"@ {
        Switches { width: u32_or(v, s.width), ..s }
    } else if f == "--height"@ {
        Switches { height: u32_or(v, s.height), ..s }
    } else if f == "--taa-frames"@ {
        Switches { taa_frames: usize_or(v, s.taa_frames), ..s }
    } else if f == "--reference"@ {
        Switches { reference: u32_or(v, 8), ..s }
    } else if f == "--shaft-texel"@ {
        let n = i32_or(v, 4);
        Switches { shaft_texel: if n < 1 { 1 } else if n > 64 { 64 } else { n }, ..s }
    } else if f == "--max-lod"@ {
        Switches { max_lod: u8_or(v, s.max_lod), ..s }
    } else if f == "--fade-schedule"@ {
        Switches {
            fade_schedule: if v == "smoothstep"@ {
                FadeSchedule::Smoothstep
            } else if v == "smootherstep"@ {
                FadeSchedule::Smootherstep
            } else {
                s.fade_schedule
            },
            ..s
        }
    } else if f == "--tone-map"@ {
        Switches { tone_map_aces: v == "aces"@, ..s }
    } else if f == "--grade"@ {
        Switches { grade_warm: v == "warm"@, grade_cine: v == "cine"@, ..s }
    } else if f == "--hotbar"@ {
        let n: int = match parse_nat(v) {
            Some(n) => if n <= usize::MAX { n as int } else { s.hotbar as int },
            None => s.hotbar as int,
        };
        Switches { hotbar: (if n < SLOTS - 1 { n } else { SLOTS - 1 }) as usize, ..s }
    } else if f == "--water-sec-scale"@ {
        match parse_nat(v) {
            Some(n) => if n == 1 || n == 2 || n == 4 { Switches { water_sec_scale: n as u32, ..s } } else { s },
            None => s,
        }
    } else if f == "--sun-softness"@ {
        Switches { sun_softness: sun_softness_of(v), ..s }
    } else if f == "--surface-debug"@ {
        Switches { surface_debug: surface_debug_of(v), ..s }
    } else if f == "--shadow-pass"@ || f == "--no-shadow-pass"@ {
        Switches { shadow_pass: true, ..s }
    } else if f == "--probe-tap"@ {
        Switches { probe_tap: true, ..s }
    } else if f == "--probe-ambient"@ {
        Switches { probe_tap: true, probe_ambient: true, ..s }
    } else {
        s
    }
}

pub open spec fn text_or_empty(v: Option<Seq<char>>) -> Seq<char> {
    match v {
        Some(t) => t,
        None => Seq::empty(),
    }
}

/// The switches after the flags `settings`, in the order given.
pub open spec fn switches_after(settings: Seq<(Seq<char>, Option<Seq<char>>)>) -> Switches
    decreases settings.len(),
{
    if settings.len() == 0 {
        default_switches()
    } else {
        switch_step(switches_after(settings.drop_last()), settings.last().0, text_or_empty(settings.last().1))
    }
}

/// The characters `lo..hi` read as an unsigned number, when it fits in 64 bits.
fn parse_u64_range(c: &Vec<char>, lo: usize, hi: usize) -> (r: Option<u64>)
    requires
        lo <= hi <= c@.len(),
    ensures
        match parse_nat(c@.subrange(lo as int, hi as int)) {
            Some(n) => if n <= u64::MAX { r == Some(n as u64) } else { r is None },
            None => r is None,
        },
{
    let ghost s = c@.subrange(lo as int, hi as int);
    let start = if lo < hi && c[lo] == '+' { lo + 1 } else { lo };
    let ghost d = c@.subrange(start as int, hi as int);
    assert(d =~= unsigned(s));
    if start >= hi {
        return None;
    }
    let mut v: u64 = 0;
    let mut i = start;
    while i < hi
        invariant
            start <= i <= hi <= c@.len(),
            lo <= start,
            d == c@.subrange(start as int, hi as int),
            s == c@.subrange(lo as int, hi as int),
            d == unsigned(s),
            forall|k: int| start <= k < i ==> is_digit(#[trigger] c@[k]),
            v == digits_value(c@.subrange(start as int, i as int)),
        decreases hi - i,
    {
        let ch = c[i];
        if !('0' <= ch && ch <= '9') {
            assert(d[i - start] == ch);
            assert(!is_digit(d[i - start]));
            return None;
        }
        let digit = (ch as u32 - '0' as u32) as u64;
        assert(c@.subrange(start as int, i + 1).drop_last() =~= c@.subrange(start as int, i as int));
        if v > (u64::MAX - digit) / 10 {
            proof {
                assert(v * 10 + digit > u64::MAX) by (nonlinear_arith)
                    requires
                        v > (u64::MAX - digit) / 10,
                        digit <= 9,
                ;
                assert(d.take((i + 1 - start) as int) =~= c@.subrange(start as int, i + 1));
                lemma_digits_grow(d, (i + 1 - start) as int);
            }
            return None;
        }
        proof {
            assert(v * 10 + digit <= u64::MAX) by (nonlinear_arith)
                requires
                    v <= (u64::MAX - digit) / 10,
                    digit <= 9,
            ;
        }
        v = v * 10 + digit;
        i += 1;
    }
    assert(c@.subrange(start as int, hi as int) =~= d);
    assert forall|k: int| 0 <= k < d.len() implies is_digit(#[trigger] d[k]) by {
        assert(d[k] == c@[start + k]);
    }
    Some(v)
}

/// The characters `v` read as an `i32`, else `keep`.
fn read_i32(v: &Vec<char>, keep: i32) -> (r: i32)
    ensures
        r == i32_or(v@, keep),
{
    let n = v.len();
    if n > 0 && v[0] == '-' {
        let ghost d = v@.subrange(1, n as int);
        assert(v@.drop_first() =~= d);
        if n > 1 && v[1] == '+' {
            assert(d[0] == '+');
            assert(!is_digit(d[0]));
            return keep;
        }
        assert(unsigned(d) =~= d);
        match parse_u64_range(v, 1, n) {
            Some(m) => if m < 2147483648 {
                -(m as i32)
            } else if m == 2147483648 {
                i32::MIN
            } else {
                keep
            },
            None => keep,
        }
    } else {
        assert(v@.subrange(0, n as int) =~= v@);
        match parse_u64_range(v, 0, n) {
            Some(m) => if m <= 2147483647 { m as i32 } else { keep },
            None => keep,
        }
    }
}

/// The characters `v` read as a `u32`, else `keep`.
fn read_u32(v: &Vec<char>, keep: u32) -> (r: u32)
    ensures
        r == u32_or(v@, keep),
{
    assert(v@.subrange(0, v@.len() as int) =~= v@);
    match parse_u64_range(v, 0, v.len()) {
        Some(m) => if m <= u32::MAX as u64 { m as u32 } else { keep },
        None => keep,
    }
}

/// The characters `v` read as a `usize`, else `keep`.
fn read_usize(v: &Vec<char>, keep: usize) -> (r: usize)
    ensures
        r == usize_or(v@, keep),
{
    assert(v@.subrange(0, v@.len() as int) =~= v@);
    match parse_u64_range(v, 0, v.len()) {
        Some(m) => if m <= usize::MAX as u64 { m as usize } else { keep },
        None => keep,
    }
}

/// What one flag, with its value, does to the switches.
fn apply_switch(s: Switches, f: &Vec<char>, v: &Vec<char>) -> (r: Switches)
    ensures
        r == switch_step(s, f@, v@),
{
    if is_text(f, "--seed") {
        Switches { seed: read_i32(v, s.seed), ..s }
    } else if is_text(f, "--sea-level") {
        Switches { sea_level: read_i32(v, s.sea_level), ..s }
    } else if is_text(f, "--no-water") {
        Switches { sea_level: 0, ..s }
    } else if is_text(f, "--width") {
        Switches { width: read_u32(v, s.width), ..s }
    } else if is_text(f, "--height") {
        Switches { height: read_u32(v, s.height), ..s }
    } else if is_text(f, "--taa-frames") {
        Switches { taa_frames: read_usize(v, s.taa_frames), ..s }
    } else if is_text(f, "--reference") {
        Switches { reference: read_u32(v, 8), ..s }
    } else if is_text(f, "--shaft-texel") {
        let n = read_i32(v, 4);
        Switches { shaft_texel: if n < 1 { 1 } else if n > 64 { 64 } else { n }, ..s }
    } else if is_text(f, "--max-lod") {
        assert(v@.subrange(0, v@.len() as int) =~= v@);
        let m: u8 = match parse_u64_range(v, 0, v.len()) {
            Some(n) => if n <= 255 { n as u8 } else { s.max_lod },
            None => s.max_lod,
        };
        Switches { max_lod: m, ..s }
    } else if is_text(f, "--fade-schedule") {
        let k = if is_text(v, "smoothstep") {
            FadeSchedule::Smoothstep
        } else if is_text(v, "smootherstep") {
            FadeSchedule::Smootherstep
        } else {
            s.fade_schedule
        };
        Switches { fade_schedule: k, ..s }
    } else if is_text(f, "--tone-map") {
        Switches { tone_map_aces: is_text(v, "aces"), ..s }
    } else if is_text(f, "--grade") {
        Switches { grade_warm: is_text(v, "warm"), grade_cine: is_text(v, "cine"), ..s }
    } else if is_text(f, "--hotbar") {
        assert(v@.subrange(0, v@.len() as int) =~= v@);
        let n: u64 = match parse_u64_range(v, 0, v.len()) {
            Some(n) => if n <= usize::MAX as u64 { n } else { s.hotbar as u64 },
            None => s.hotbar as u64,
        };
        let last = (SLOTS - 1) as u64;
        Switches { hotbar: (if n < last { n } else { last }) as usize, ..s }
    } else if is_text(f, "--water-sec-scale") {
        assert(v@.subrange(0, v@.len() as int) =~= v@);
        match parse_u64_range(v, 0, v.len()) {
            Some(n) => if n == 1 || n == 2 || n == 4 { Switches { water_sec_scale: n as u32, ..s } } else { s },
            None => s,
        }
    } else if is_text(f, "--sun-softness") {
        let k: u32 = if is_text(v, "narrow") {
            1
        } else if is_text(v, "wide") {
            2
        } else {
            0
        };
        Switches { sun_softness: k, ..s }
    } else if is_text(f, "--surface-debug") {
        let k: u32 = if is_text(v, "normals") {
            1
        } else if is_text(v, "shadow") {
            2
        } else if is_text(v, "direct") {
            3
        } else if is_text(v, "indirect") {
            4
        } else if is_text(v, "water-faces") {
            5
        } else if is_text(v, "reflection") {
            6
        } else if is_text(v, "refraction") {
            7
        } else {
            0
        };
        Switches { surface_debug: k, ..s }
    } else if is_text(f, "--shadow-pass") || is_text(f, "--no-shadow-pass") {
        Switches { shadow_pass: true, ..s }
    } else if is_text(f, "--probe-tap") {
        Switches { probe_tap: true, ..s }
    } else if is_text(f, "--probe-ambient") {
        Switches { probe_tap: true, probe_ambient: true, ..s }
    } else {
        s
    }
}

/// What a scanned command line's flags set of the plain-valued switches, each flag in turn
/// from the defaults.
pub fn switches(scan: &ArgScan) -> (r: Switches)
    ensures
        r == switches_after(scan@.settings),
{
    let ghost sv = scan@.settings;
    let mut s = Switches {
        seed: 1337,
        sea_level: 128,
        width: 1600,
        height: 900,
        taa_frames: 32,
        reference: 0,
        shaft_texel: 4,
        max_lod: 4,
        fade_schedule: FadeSchedule::Smoothstep,
        tone_map_aces: false,
        grade_warm: false,
        grade_cine: false,
        hotbar: 4,
        water_sec_scale: 2,
        sun_softness: 0,
        surface_debug: 0,
        shadow_pass: true,
        probe_tap: false,
        probe_ambient: false,
    };
    let mut i: usize = 0;
    assert(sv.take(0) =~= Seq::<(Seq<char>, Option<Seq<char>>)>::empty());
    while i < scan.settings.len()
        invariant
            i <= scan.settings@.len(),
            sv == setting_views(scan.settings@),
            s == switches_after(sv.take(i as int)),
        decreases scan.settings@.len() - i,
    {
        let ghost cur = sv.take(i + 1);
        assert(cur.drop_last() =~= sv.take(i as int));
        assert(cur.last() == sv[i as int]);
        let (f, v) = &scan.settings[i];
        let fc = chars_of(f.as_str());
        let vc = match v {
            Some(t) => chars_of(t.as_str()),
            None => Vec::new(),
        };
        assert(fc@ == sv[i as int].0);
        assert(vc@ == text_or_empty(sv[i as int].1));
        s = apply_switch(s, &fc, &vc);
        i += 1;
    }
    assert(sv.take(sv.len() as int) =~= sv);
    s
}

// ------------------------------------------------------------------ on/off switches

/// The number of on/off switches.
pub const TOGGLES: usize = 66;

/// The number of flags that turn an on/off switch on or off.
pub const TOGGLE_FLAGS: usize = 75;

/// On/off switch `j` of a configuration, by name, with the value it starts at.
pub open spec fn toggle_default_at(j: usize) -> (&'static str, bool) {
    match j {
        0 => ("water_reflect", true),
        1 => ("water_refract", true),
        2 => ("shore_wet", true),
        3 => ("shore_foam", true),
        4 => ("water_sec", true),
        5 => ("sky_cool", false),
        6 => ("water_look", false),
        7 => ("foliage_rich", false),
        8 => ("canopy_relief", false),
        9 => ("caustics", false),
        10 => ("glass_reflect", false),
        11 => ("tree_blue_noise", false),
        12 => ("meadow_side", false),
        13 => ("grass_dense", false),
        14 => ("wind_sway", false),
        15 => ("soft_shadows", false),
        16 => ("isolate_glass", false),
        17 => ("legacy_lighting", false),
        18 => ("legacy_water", false),
        19 => ("soft_shadow_hq", false),
        20 => ("compact_shade_hit", false),
        21 => ("snell_bend", false),
        22 => ("tint_balance", false),
        23 => ("biomes", true),
        24 => ("foliage", true),
        25 => ("meadow", true),
        26 => ("bounce_shadow", true),
        27 => ("tint", true),
        28 => ("wave_aniso", true),
        29 => ("wave_shoal", true),
        30 => ("wave_fill", true),
        31 => ("terrain_shafts", true),
        32 => ("tex_variation", true),
        33 => ("leaf_cutout", true),
        34 => ("flat_secondary", true),
        35 => ("water_far", true),
        36 => ("water_dark", true),
        37 => ("snell", true),
        38 => ("probe_cube", true),
        39 => ("probe_bounce", true),
        40 => ("probe_sun", true),
        41 => ("probe_sun_high", false),
        42 => ("light_rgb", true),
        43 => ("sky_tint", true),
        44 => ("sky_specular", true),
        45 => ("full_march", true),
        46 => ("probe_noise", false),
        47 => ("march_stats", false),
        48 => ("glass", true),
        49 => ("distant_shadows", true),
        50 => ("water_shadow_cut", true),
        51 => ("leaf_thin", true),
        52 => ("taa", true),
        53 => ("cross_fade", true),
        54 => ("shadow_share", true),
        55 => ("offscreen_shadows", true),
        56 => ("vsync", true),
        57 => ("idle_repaint", true),
        58 => ("shadows", true),
        59 => ("hiz", true),
        60 => ("hud", false),
        61 => ("demo_edits", false),
        62 => ("demo_glass", false),
        63 => ("demo_lamps", false),
        64 => ("ao", true),
        65 => ("physics", true),
        _ => ("", false),
    }
}

/// The on/off switches of a configuration, by name, each with the value it starts at.
pub open spec fn toggle_defaults() -> Seq<(&'static str, bool)> {
    Seq::new(TOGGLES as nat, |j: int| toggle_default_at(j as usize))
}

/// Flag `k` of those that turn a switch on or off: the flag, the switch's position among
/// [`toggle_defaults`], and the value it sets.
pub open spec fn toggle_flag_at(k: usize) -> (&'static str, usize, bool) {
    match k {
        0 => ("--no-water-reflect", 0usize, false),
        1 => ("--no-water-refract", 1usize, false),
        2 => ("--no-shore-wet", 2usize, false),
        3 => ("--no-shore-foam", 3usize, false),
        4 => ("--no-water-sec", 4usize, false),
        5 => ("--sky-cool", 5usize, true),
        6 => ("--water-look", 6usize, true),
        7 => ("--foliage-rich", 7usize, true),
        8 => ("--canopy-relief", 8usize, true),
        9 => ("--caustics", 9usize, true),
        10 => ("--glass-reflect", 10usize, true),
        11 => ("--tree-blue-noise", 11usize, true),
        12 => ("--meadow-side", 12usize, true),
        13 => ("--grass-dense", 13usize, true),
        14 => ("--wind-sway", 14usize, true),
        15 => ("--soft-shadows", 15usize, true),
        16 => ("--no-soft-shadows", 15usize, false),
        17 => ("--no-wind-sway", 14usize, false),
        18 => ("--no-water-look", 6usize, false),
        19 => ("--no-glass-reflect", 10usize, false),
        20 => ("--isolate-glass", 16usize, true),
        21 => ("--no-isolate-glass", 16usize, false),
        22 => ("--legacy-lighting", 17usize, true),
        23 => ("--repaired-lighting", 17usize, false),
        24 => ("--legacy-water", 18usize, true),
        25 => ("--repaired-water", 18usize, false),
        26 => ("--soft-shadow-hq", 19usize, true),
        27 => ("--no-soft-shadow-hq", 19usize, false),
        28 => ("--compact-shade-hit", 20usize, true),
        29 => ("--no-compact-shade-hit", 20usize, false),
        30 => ("--snell-bend", 21usize, true),
        31 => ("--tint-balance", 22usize, true),
        32 => ("--no-biomes", 23usize, false),
        33 => ("--no-foliage", 24usize, false),
        34 => ("--no-meadow", 25usize, false),
        35 => ("--no-probe-shadow", 26usize, false),
        36 => ("--no-tint", 27usize, false),
        37 => ("--no-wave-aniso", 28usize, false),
        38 => ("--no-wave-shoal", 29usize, false),
        39 => ("--no-wave-fill", 30usize, false),
        40 => ("--no-terrain-shafts", 31usize, false),
        41 => ("--no-tex-variation", 32usize, false),
        42 => ("--no-leaf-cutout", 33usize, false),
        43 => ("--no-flat-secondary", 34usize, false),
        44 => ("--no-water-far", 35usize, false),
        45 => ("--no-water-dark", 36usize, false),
        46 => ("--no-snell", 37usize, false),
        47 => ("--no-probe-cube", 38usize, false),
        48 => ("--no-probe-bounce", 39usize, false),
        49 => ("--no-probe-sun", 40usize, false),
        50 => ("--probe-sun-high", 41usize, true),
        51 => ("--no-light-rgb", 42usize, false),
        52 => ("--no-sky-tint", 43usize, false),
        53 => ("--no-sky-specular", 44usize, false),
        54 => ("--no-full-march", 45usize, false),
        55 => ("--probe-noise", 46usize, true),
        56 => ("--march-stats", 47usize, true),
        57 => ("--no-glass", 48usize, false),
        58 => ("--no-distant-shadows", 49usize, false),
        59 => ("--no-water-shadow-cut", 50usize, false),
        60 => ("--no-leaf-thin", 51usize, false),
        61 => ("--no-taa", 52usize, false),
        62 => ("--no-fade", 53usize, false),
        63 => ("--no-shadow-share", 54usize, false),
        64 => ("--no-offscreen-shadows", 55usize, false),
        65 => ("--no-vsync", 56usize, false),
        66 => ("--no-idle-repaint", 57usize, false),
        67 => ("--no-shadows", 58usize, false),
        68 => ("--no-hiz", 59usize, false),
        69 => ("--hud", 60usize, true),
        70 => ("--demo-edits", 61usize, true),
        71 => ("--demo-glass", 62usize, true),
        72 => ("--demo-lamps", 63usize, true),
        73 => ("--no-ao", 64usize, false),
        74 => ("--no-physics", 65usize, false),
        _ => ("", 0usize, false),
    }
}

/// The flags that turn a switch on or off, in order.
pub open spec fn toggle_flags() -> Seq<(&'static str, usize, bool)> {
    Seq::new(TOGGLE_FLAGS as nat, |k: int| toggle_flag_at(k as usize))
}

/// The switches' starting values, in order.
pub open spec fn toggle_start() -> Seq<bool> {
    Seq::new(toggle_defaults().len(), |k: int| toggle_defaults()[k].1)
}

/// The position, from `from` on, of the first flag in `table` that is `f`.
pub open spec fn first_flag(table: Seq<(&'static str, usize, bool)>, f: Seq<char>, from: int) -> Option<int>
    decreases table.len() - from,
{
    if from < 0 || from >= table.len() {
        None
    } else if table[from].0@ == f {
        Some(from)
    } else {
        first_flag(table, f, from + 1)
    }
}

/// What flag `f` does to the switches `t`.
pub open spec fn toggle_step(t: Seq<bool>, f: Seq<char>) -> Seq<bool> {
    match first_flag(toggle_flags(), f, 0) {
        Some(k) => if toggle_flags()[k].1 < t.len() {
            t.update(toggle_flags()[k].1 as int, toggle_flags()[k].2)
        } else {
            t
        },
        None => t,
    }
}

/// The switches after the flags `settings`, in the order given.
pub open spec fn toggles_after(settings: Seq<(Seq<char>, Option<Seq<char>>)>) -> Seq<bool>
    decreases settings.len(),
{
    if settings.len() == 0 {
        toggle_start()
    } else {
        toggle_step(toggles_after(settings.drop_last()), settings.last().0)
    }
}

fn default_at(j: usize) -> (e: (&'static str, bool))
    requires
        j < TOGGLES,
    ensures
        e == toggle_default_at(j),
{
    match j {
        0 => ("water_reflect", true),
        1 => ("water_refract", true),
        2 => ("shore_wet", true),
        3 => ("shore_foam", true),
        4 => ("water_sec", true),
        5 => ("sky_cool", false),
        6 => ("water_look", false),
        7 => ("foliage_rich", false),
        8 => ("canopy_relief", false),
        9 => ("caustics", false),
        10 => ("glass_reflect", false),
        11 => ("tree_blue_noise", false),
        12 => ("meadow_side", false),
        13 => ("grass_dense", false),
        14 => ("wind_sway", false),
        15 => ("soft_shadows", false),
        16 => ("isolate_glass", false),
        17 => ("legacy_lighting", false),
        18 => ("legacy_water", false),
        19 => ("soft_shadow_hq", false),
        20 => ("compact_shade_hit", false),
        21 => ("snell_bend", false),
        22 => ("tint_balance", false),
        23 => ("biomes", true),
        24 => ("foliage", true),
        25 => ("meadow", true),
        26 => ("bounce_shadow", true),
        27 => ("tint", true),
        28 => ("wave_aniso", true),
        29 => ("wave_shoal", true),
        30 => ("wave_fill", true),
        31 => ("terrain_shafts", true),
        32 => ("tex_variation", true),
        33 => ("leaf_cutout", true),
        34 => ("flat_secondary", true),
        35 => ("water_far", true),
        36 => ("water_dark", true),
        37 => ("snell", true),
        38 => ("probe_cube", true),
        39 => ("probe_bounce", true),
        40 => ("probe_sun", true),
        41 => ("probe_sun_high", false),
        42 => ("light_rgb", true),
        43 => ("sky_tint", true),
        44 => ("sky_specular", true),
        45 => ("full_march", true),
        46 => ("probe_noise", false),
        47 => ("march_stats", false),
        48 => ("glass", true),
        49 => ("distant_shadows", true),
        50 => ("water_shadow_cut", true),
        51 => ("leaf_thin", true),
        52 => ("taa", true),
        53 => ("cross_fade", true),
        54 => ("shadow_share", true),
        55 => ("offscreen_shadows", true),
        56 => ("vsync", true),
        57 => ("idle_repaint", true),
        58 => ("shadows", true),
        59 => ("hiz", true),
        60 => ("hud", false),
        61 => ("demo_edits", false),
        62 => ("demo_glass", false),
        63 => ("demo_lamps", false),
        64 => ("ao", true),
        65 => ("physics", true),
        _ => ("", false),
    }
}

fn flag_at(k: usize) -> (e: (&'static str, usize, bool))
    requires
        k < TOGGLE_FLAGS,
    ensures
        e == toggle_flag_at(k),
{
    match k {
        0 => ("--no-water-reflect", 0, false),
        1 => ("--no-water-refract", 1, false),
        2 => ("--no-shore-wet", 2, false),
        3 => ("--no-shore-foam", 3, false),
        4 => ("--no-water-sec", 4, false),
        5 => ("--sky-cool", 5, true),
        6 => ("--water-look", 6, true),
        7 => ("--foliage-rich", 7, true),
        8 => ("--canopy-relief", 8, true),
        9 => ("--caustics", 9, true),
        10 => ("--glass-reflect", 10, true),
        11 => ("--tree-blue-noise", 11, true),
        12 => ("--meadow-side", 12, true),
        13 => ("--grass-dense", 13, true),
        14 => ("--wind-sway", 14, true),
        15 => ("--soft-shadows", 15, true),
        16 => ("--no-soft-shadows", 15, false),
        17 => ("--no-wind-sway", 14, false),
        18 => ("--no-water-look", 6, false),
        19 => ("--no-glass-reflect", 10, false),
        20 => ("--isolate-glass", 16, true),
        21 => ("--no-isolate-glass", 16, false),
        22 => ("--legacy-lighting", 17, true),
        23 => ("--repaired-lighting", 17, false),
        24 => ("--legacy-water", 18, true),
        25 => ("--repaired-water", 18, false),
        26 => ("--soft-shadow-hq", 19, true),
        27 => ("--no-soft-shadow-hq", 19, false),
        28 => ("--compact-shade-hit", 20, true),
        29 => ("--no-compact-shade-hit", 20, false),
        30 => ("--snell-bend", 21, true),
        31 => ("--tint-balance", 22, true),
        32 => ("--no-biomes", 23, false),
        33 => ("--no-foliage", 24, false),
        34 => ("--no-meadow", 25, false),
        35 => ("--no-probe-shadow", 26, false),
        36 => ("--no-tint", 27, false),
        37 => ("--no-wave-aniso", 28, false),
        38 => ("--no-wave-shoal", 29, false),
        39 => ("--no-wave-fill", 30, false),
        40 => ("--no-terrain-shafts", 31, false),
        41 => ("--no-tex-variation", 32, false),
        42 => ("--no-leaf-cutout", 33, false),
        43 => ("--no-flat-secondary", 34, false),
        44 => ("--no-water-far", 35, false),
        45 => ("--no-water-dark", 36, false),
        46 => ("--no-snell", 37, false),
        47 => ("--no-probe-cube", 38, false),
        48 => ("--no-probe-bounce", 39, false),
        49 => ("--no-probe-sun", 40, false),
        50 => ("--probe-sun-high", 41, true),
        51 => ("--no-light-rgb", 42, false),
        52 => ("--no-sky-tint", 43, false),
        53 => ("--no-sky-specular", 44, false),
        54 => ("--no-full-march", 45, false),
        55 => ("--probe-noise", 46, true),
        56 => ("--march-stats", 47, true),
        57 => ("--no-glass", 48, false),
        58 => ("--no-distant-shadows", 49, false),
        59 => ("--no-water-shadow-cut", 50, false),
        60 => ("--no-leaf-thin", 51, false),
        61 => ("--no-taa", 52, false),
        62 => ("--no-fade", 53, false),
        63 => ("--no-shadow-share", 54, false),
        64 => ("--no-offscreen-shadows", 55, false),
        65 => ("--no-vsync", 56, false),
        66 => ("--no-idle-repaint", 57, false),
        67 => ("--no-shadows", 58, false),
        68 => ("--no-hiz", 59, false),
        69 => ("--hud", 60, true),
        70 => ("--demo-edits", 61, true),
        71 => ("--demo-glass", 62, true),
        72 => ("--demo-lamps", 63, true),
        73 => ("--no-ao", 64, false),
        74 => ("--no-physics", 65, false),
        _ => ("", 0, false),
    }
}

fn default_table() -> (v: Vec<(&'static str, bool)>)
    ensures
        v@ == toggle_defaults(),
{
    let mut v: Vec<(&'static str, bool)> = Vec::new();
    let mut j: usize = 0;
    while j < TOGGLES
        invariant
            j <= TOGGLES,
            v@ =~= Seq::new(j as nat, |i: int| toggle_default_at(i as usize)),
        decreases TOGGLES - j,
    {
        v.push(default_at(j));
        j += 1;
    }
    v
}

fn flag_table() -> (v: Vec<(&'static str, usize, bool)>)
    ensures
        v@ == toggle_flags(),
{
    let mut v: Vec<(&'static str, usize, bool)> = Vec::new();
    let mut k: usize = 0;
    while k < TOGGLE_FLAGS
        invariant
            k <= TOGGLE_FLAGS,
            v@ =~= Seq::new(k as nat, |i: int| toggle_flag_at(i as usize)),
        decreases TOGGLE_FLAGS - k,
    {
        v.push(flag_at(k));
        k += 1;
    }
    v
}

/// The switches' names, in the order [`toggles`] gives their values.
pub fn toggle_names() -> (v: Vec<&'static str>)
    ensures
        v@.len() == toggle_defaults().len(),
        forall|k: int| 0 <= k < v@.len() ==> #[trigger] v@[k] == toggle_defaults()[k].0,
{
    let table = default_table();
    let mut v: Vec<&'static str> = Vec::new();
    let mut k: usize = 0;
    while k < table.len()
        invariant
            k <= table@.len(),
            table@ == toggle_defaults(),
            v@.len() == k,
            forall|j: int| 0 <= j < k ==> #[trigger] v@[j] == toggle_defaults()[j].0,
        decreases table@.len() - k,
    {
        v.push(table[k].0);
        k += 1;
    }
    v
}

/// The position of the first flag in `table` that is `f`.
fn find_flag(table: &Vec<(&'static str, usize, bool)>, f: &Vec<char>) -> (r: Option<usize>)
    ensures
        match r {
            Some(m) => first_flag(table@, f@, 0) == Some(m as int) && m < table@.len(),
            None => first_flag(table@, f@, 0) is None,
        },
{
    let mut m: usize = 0;
    while m < table.len()
        invariant
            m <= table@.len(),
            first_flag(table@, f@, 0) == first_flag(table@, f@, m as int),
        decreases table@.len() - m,
    {
        if is_text(f, table[m].0) {
            return Some(m);
        }
        m += 1;
    }
    None
}

/// What a scanned command line's flags make of the on/off switches, each flag in turn from
/// the starting values; in the order of [`toggle_names`].
pub fn toggles(scan: &ArgScan) -> (r: Vec<bool>)
    ensures
        r@ == toggles_after(scan@.settings),
{
    let defaults = default_table();
    let flags = flag_table();
    let mut t: Vec<bool> = Vec::new();
    let mut k: usize = 0;
    while k < defaults.len()
        invariant
            k <= defaults@.len(),
            defaults@ == toggle_defaults(),
            t@.len() == k,
            forall|j: int| 0 <= j < k ==> #[trigger] t@[j] == toggle_defaults()[j].1,
        decreases defaults@.len() - k,
    {
        t.push(defaults[k].1);
        k += 1;
    }
    assert(t@ =~= toggle_start());
    let ghost sv = scan@.settings;
    let mut i: usize = 0;
    assert(sv.take(0) =~= Seq::<(Seq<char>, Option<Seq<char>>)>::empty());
    while i < scan.settings.len()
        invariant
            i <= scan.settings@.len(),
            sv == setting_views(scan.settings@),
            flags@ == toggle_flags(),
            t@ == toggles_after(sv.take(i as int)),
        decreases scan.settings@.len() - i,
    {
        let ghost cur = sv.take(i + 1);
        assert(cur.drop_last() =~= sv.take(i as int));
        assert(cur.last() == sv[i as int]);
        let fc = chars_of(scan.settings[i].0.as_str());
        assert(fc@ == sv[i as int].0);
        match find_flag(&flags, &fc) {
            Some(m) => {
                let (_, at, on) = flags[m];
                if at < t.len() {
                    t.set(at, on);
                }
            },
            None => {},
        }
        i += 1;
    }
    assert(sv.take(sv.len() as int) =~= sv);
    t
}


// ------------------------------------------------------------------ what each on/off flag names

/// `--no-`, the prefix of a flag that turns its switch off.
pub open spec fn negated(f: Seq<char>) -> bool {
    f.len() >= 5 && f.take(5) == seq!['-', '-', 'n', 'o', '-']
}

/// The words of flag `f` after its leading dashes and any `no-`, dashes read as underscores:
/// the name of the switch the flag sets.
pub open spec fn flag_words(f: Seq<char>) -> Seq<char> {
    let rest = if negated(f) { f.skip(5) } else { f.skip(2) };
    Seq::new(rest.len(), |i: int| if rest[i] == '-' { '_' } else { rest[i] })
}

/// The four flags whose switch has another name: the repaired lighting and water turn the
/// legacy paths off, the probe's shadow is its bounce shadow, and the fade is the cross-fade.
pub open spec fn renamed(f: Seq<char>) -> Option<(Seq<char>, bool)> {
    if f == "--repaired-lighting"@ {
        Some(("legacy_lighting"@, false))
    } else if f == "--repaired-water"@ {
        Some(("legacy_water"@, false))
    } else if f == "--no-probe-shadow"@ {
        Some(("bounce_shadow"@, false))
    } else if f == "--no-fade"@ {
        Some(("cross_fade"@, false))
    } else {
        None
    }
}

/// The switch flag `f` sets, by name, and the value it sets: the switch its words name, off
/// for a `--no-` flag and on otherwise, but for the four renamed ones.
pub open spec fn toggle_target(f: Seq<char>) -> (Seq<char>, bool) {
    match renamed(f) {
        Some(t) => t,
        None => (flag_words(f), !negated(f)),
    }
}

/// An entry of the flag table sets the switch its flag names, to the value its flag says.
pub open spec fn entry_ok(e: (&'static str, usize, bool)) -> bool {
    &&& e.1 < toggle_defaults().len()
    &&& toggle_defaults()[e.1 as int].0@ == toggle_target(e.0@).0
    &&& e.2 == toggle_target(e.0@).1
}

/// Every on/off flag sets the switch of its own name: `--no-ao` turns `ao` off, `--hud`
/// turns `hud` on, and so on; only the four renamed flags set a switch of another name.
pub proof fn law_toggle_flags_set_their_own_switch()
    ensures
        forall|k: int| 0 <= k < toggle_flags().len() ==> #[trigger] entry_ok(toggle_flags()[k]),
{
    lemma_toggle_entry_0();
    lemma_toggle_entry_1();
    lemma_toggle_entry_2();
    lemma_toggle_entry_3();
    lemma_toggle_entry_4();
    lemma_toggle_entry_5();
    lemma_toggle_entry_6();
    lemma_toggle_entry_7();
    lemma_toggle_entry_8();
    lemma_toggle_entry_9();
    lemma_toggle_entry_10();
    lemma_toggle_entry_11();
    lemma_toggle_entry_12();
    lemma_toggle_entry_13();
    lemma_toggle_entry_14();
    lemma_toggle_entry_15();
    lemma_toggle_entry_16();
    lemma_toggle_entry_17();
    lemma_toggle_entry_18();
    lemma_toggle_entry_19();
    lemma_toggle_entry_20();
    lemma_toggle_entry_21();
    lemma_toggle_entry_22();
    lemma_toggle_entry_23();
    lemma_toggle_entry_24();
    lemma_toggle_entry_25();
    lemma_toggle_entry_26();
    lemma_toggle_entry_27();
    lemma_toggle_entry_28();
    lemma_toggle_entry_29();
    lemma_toggle_entry_30();
    lemma_toggle_entry_31();
    lemma_toggle_entry_32();
    lemma_toggle_entry_33();
    lemma_toggle_entry_34();
    lemma_toggle_entry_35();
    lemma_toggle_entry_36();
    lemma_toggle_entry_37();
    lemma_toggle_entry_38();
    lemma_toggle_entry_39();
    lemma_toggle_entry_40();
    lemma_toggle_entry_41();
    lemma_toggle_entry_42();
    lemma_toggle_entry_43();
    lemma_toggle_entry_44();
    lemma_toggle_entry_45();
    lemma_toggle_entry_46();
    lemma_toggle_entry_47();
    lemma_toggle_entry_48();
    lemma_toggle_entry_49();
    lemma_toggle_entry_50();
    lemma_toggle_entry_51();
    lemma_toggle_entry_52();
    lemma_toggle_entry_53();
    lemma_toggle_entry_54();
    lemma_toggle_entry_55();
    lemma_toggle_entry_56();
    lemma_toggle_entry_57();
    lemma_toggle_entry_58();
    lemma_toggle_entry_59();
    lemma_toggle_entry_60();
    lemma_toggle_entry_61();
    lemma_toggle_entry_62();
    lemma_toggle_entry_63();
    lemma_toggle_entry_64();
    lemma_toggle_entry_65();
    lemma_toggle_entry_66();
    lemma_toggle_entry_67();
    lemma_toggle_entry_68();
    lemma_toggle_entry_69();
    lemma_toggle_entry_70();
    lemma_toggle_entry_71();
    lemma_toggle_entry_72();
    lemma_toggle_entry_73();
    lemma_toggle_entry_74();
    assert forall|k: int| 0 <= k < toggle_flags().len() implies #[trigger] entry_ok(toggle_flags()[k]) by {
        if k == 0 {
        } else if k == 1 {
        } else if k == 2 {
        } else if k == 3 {
        } else if k == 4 {
        } else if k == 5 {
        } else if k == 6 {
        } else if k == 7 {
        } else if k == 8 {
        } else if k == 9 {
        } else if k == 10 {
        } else if k == 11 {
        } else if k == 12 {
        } else if k == 13 {
        } else if k == 14 {
        } else if k == 15 {
        } else if k == 16 {
        } else if k == 17 {
        } else if k == 18 {
        } else if k == 19 {
        } else if k == 20 {
        } else if k == 21 {
        } else if k == 22 {
        } else if k == 23 {
        } else if k == 24 {
        } else if k == 25 {
        } else if k == 26 {
        } else if k == 27 {
        } else if k == 28 {
        } else if k == 29 {
        } else if k == 30 {
        } else if k == 31 {
        } else if k == 32 {
        } else if k == 33 {
        } else if k == 34 {
        } else if k == 35 {
        } else if k == 36 {
        } else if k == 37 {
        } else if k == 38 {
        } else if k == 39 {
        } else if k == 40 {
        } else if k == 41 {
        } else if k == 42 {
        } else if k == 43 {
        } else if k == 44 {
        } else if k == 45 {
        } else if k == 46 {
        } else if k == 47 {
        } else if k == 48 {
        } else if k == 49 {
        } else if k == 50 {
        } else if k == 51 {
        } else if k == 52 {
        } else if k == 53 {
        } else if k == 54 {
        } else if k == 55 {
        } else if k == 56 {
        } else if k == 57 {
        } else if k == 58 {
        } else if k == 59 {
        } else if k == 60 {
        } else if k == 61 {
        } else if k == 62 {
        } else if k == 63 {
        } else if k == 64 {
        } else if k == 65 {
        } else if k == 66 {
        } else if k == 67 {
        } else if k == 68 {
        } else if k == 69 {
        } else if k == 70 {
        } else if k == 71 {
        } else if k == 72 {
        } else if k == 73 {
        } else if k == 74 {
        }
    }
}

proof fn lemma_toggle_entry_0()
    ensures
        entry_ok(toggle_flag_at(0)),
{
            reveal_strlit("--no-water-reflect");
            reveal_strlit("water_reflect");
            reveal_strlit("--repaired-lighting");
            reveal_strlit("legacy_lighting");
            reveal_strlit("--repaired-water");
            reveal_strlit("legacy_water");
            reveal_strlit("--no-probe-shadow");
            reveal_strlit("bounce_shadow");
            reveal_strlit("--no-fade");
            reveal_strlit("cross_fade");
            assert(toggle_flag_at(0) == ("--no-water-reflect", 0usize, false));
            assert(toggle_default_at(0).0 == "water_reflect");
            assert("--no-water-reflect"@.take(5) =~= seq!['-', '-', 'n', 'o', '-']);
            assert(flag_words("--no-water-reflect"@) =~= "water_reflect"@);
}

proof fn lemma_toggle_entry_1()
    ensures
        entry_ok(toggle_flag_at(1)),
{
            reveal_strlit("--no-water-refract");
            reveal_strlit("water_refract");
            reveal_strlit("--repaired-lighting");
            reveal_strlit("legacy_lighting");
            reveal_strlit("--repaired-water");
            reveal_strlit("legacy_water");
            reveal_strlit("--no-probe-shadow");
            reveal_strlit("bounce_shadow");
            reveal_strlit("--no-fade");
            reveal_strlit("cross_fade");
            assert(toggle_flag_at(1) == ("--no-water-refract", 1usize, false));
            assert(toggle_default_at(1).0 == "water_refract");
            assert("--no-water-refract"@.take(5) =~= seq!['-', '-', 'n', 'o', '-']);
            assert(flag_words("--no-water-refract"@) =~= "water_refract"@);
}

proof fn lemma_toggle_entry_2()
    ensures
        entry_ok(toggle_flag_at(2)),
{
            reveal_strlit("--no-shore-wet");
            reveal_strlit("shore_wet");
            reveal_strlit("--repaired-lighting");
            reveal_strlit("legacy_lighting");
            reveal_strlit("--repaired-water");
            reveal_strlit("legacy_water");
            reveal_strlit("--no-probe-shadow");
            reveal_strlit("bounce_shadow");
            reveal_strlit("--no-fade");
            reveal_strlit("cross_fade");
            assert(toggle_flag_at(2) == ("--no-shore-wet", 2usize, false));
            assert(toggle_default_at(2).0 == "shore_wet");
            assert("--no-shore-wet"@.take(5) =~= seq!['-', '-', 'n', 'o', '-']);
            assert(flag_words("--no-shore-wet"@) =~= "shore_wet"@);
}

proof fn lemma_toggle_entry_3()
    ensures
        entry_ok(toggle_flag_at(3)),
{
            reveal_strlit("--no-shore-foam");
            reveal_strlit("shore_foam");
            reveal_strlit("--repaired-lighting");
            reveal_strlit("legacy_lighting");
            reveal_strlit("--repaired-water");
            reveal_strlit("legacy_water");
            reveal_strlit("--no-probe-shadow");
            reveal_strlit("bounce_shadow");
            reveal_strlit("--no-fade");
            reveal_strlit("cross_fade");
            assert(toggle_flag_at(3) == ("--no-shore-foam", 3usize, false));
            assert(toggle_default_at(3).0 == "shore_foam");
            assert("--no-shore-foam"@.take(5) =~= seq!['-', '-', 'n', 'o', '-']);
            assert(flag_words("--no-shore-foam"@) =~= "shore_foam"@);
}

proof fn lemma_toggle_entry_4()
    ensures
        entry_ok(toggle_flag_at(4)),
{
            reveal_strlit("--no-water-sec");
            reveal_strlit("water_sec");
            reveal_strlit("--repaired-lighting");
            reveal_strlit("legacy_lighting");
            reveal_strlit("--repaired-water");
            reveal_strlit("legacy_water");
            reveal_strlit("--no-probe-shadow");
            reveal_strlit("bounce_shadow");
            reveal_strlit("--no-fade");
            reveal_strlit("cross_fade");
            assert(toggle_flag_at(4) == ("--no-water-sec", 4usize, false));
            assert(toggle_default_at(4).0 == "water_sec");
            assert("--no-water-sec"@.take(5) =~= seq!['-', '-', 'n', 'o', '-']);
            assert(flag_words("--no-water-sec"@) =~= "water_sec"@);
}

proof fn lemma_toggle_entry_5()
    ensures
        entry_ok(toggle_flag_at(5)),
{
            reveal_strlit("--sky-cool");
            reveal_strlit("sky_cool");
            reveal_strlit("--repaired-lighting");
            reveal_strlit("legacy_lighting");
            reveal_strlit("--repaired-water");
            reveal_strlit("legacy_water");
            reveal_strlit("--no-probe-shadow");
            reveal_strlit("bounce_shadow");
            reveal_strlit("--no-fade");
            reveal_strlit("cross_fade");
            assert(toggle_flag_at(5) == ("--sky-cool", 5usize, true));
            assert(toggle_default_at(5).0 == "sky_cool");
            assert("--sky-cool"@.take(5)[2] != 'n');
            assert(flag_words("--sky-cool"@) =~= "sky_cool"@);
}

proof fn lemma_toggle_entry_6()
    ensures
        entry_ok(toggle_flag_at(6)),
{
            reveal_strlit("--water-look");
            reveal_strlit("water_look");
            reveal_strlit("--repaired-lighting");
            reveal_strlit("legacy_lighting");
            reveal_strlit("--repaired-water");
            reveal_strlit("legacy_water");
            reveal_strlit("--no-probe-shadow");
            reveal_strlit("bounce_shadow");
            reveal_strlit("--no-fade");
            reveal_strlit("cross_fade");
            assert(toggle_flag_at(6) == ("--water-look", 6usize, true));
            assert(toggle_default_at(6).0 == "water_look");
            assert("--water-look"@.take(5)[2] != 'n');
            assert(flag_words("--water-look"@) =~= "water_look"@);
}

proof fn lemma_toggle_entry_7()
    ensures
        entry_ok(toggle_flag_at(7)),
{
            reveal_strlit("--foliage-rich");
            reveal_strlit("foliage_rich");
            reveal_strlit("--repaired-lighting");
            reveal_strlit("legacy_lighting");
            reveal_strlit("--repaired-water");
            reveal_strlit("legacy_water");
            reveal_strlit("--no-probe-shadow");
            reveal_strlit("bounce_shadow");
            reveal_strlit("--no-fade");
            reveal_strlit("cross_fade");
            assert(toggle_flag_at(7) == ("--foliage-rich", 7usize, true));
            assert(toggle_default_at(7).0 == "foliage_rich");
            assert("--foliage-rich"@.take(5)[2] != 'n');
            assert(flag_words("--foliage-rich"@) =~= "foliage_rich"@);
}

proof fn lemma_toggle_entry_8()
    ensures
        entry_ok(toggle_flag_at(8)),
{
            reveal_strlit("--canopy-relief");
            reveal_strlit("canopy_relief");
            reveal_strlit("--repaired-lighting");
            reveal_strlit("legacy_lighting");
            reveal_strlit("--repaired-water");
            reveal_strlit("legacy_water");
            reveal_strlit("--no-probe-shadow");
            reveal_strlit("bounce_shadow");
            reveal_strlit("--no-fade");
            reveal_strlit("cross_fade");
            assert(toggle_flag_at(8) == ("--canopy-relief", 8usize, true));
            assert(toggle_default_at(8).0 == "canopy_relief");
            assert("--canopy-relief"@.take(5)[2] != 'n');
            assert(flag_words("--canopy-relief"@) =~= "canopy_relief"@);
}

proof fn lemma_toggle_entry_9()
    ensures
        entry_ok(toggle_flag_at(9)),
{
            reveal_strlit("--caustics");
            reveal_strlit("caustics");
            reveal_strlit("--repaired-lighting");
            reveal_strlit("legacy_lighting");
            reveal_strlit("--repaired-water");
            reveal_strlit("legacy_water");
            reveal_strlit("--no-probe-shadow");
            reveal_strlit("bounce_shadow");
            reveal_strlit("--no-fade");
            reveal_strlit("cross_fade");
            assert(toggle_flag_at(9) == ("--caustics", 9usize, true));
            assert(toggle_default_at(9).0 == "caustics");
            assert("--caustics"@.take(5)[2] != 'n');
            assert(flag_words("--caustics"@) =~= "caustics"@);
}

proof fn lemma_toggle_entry_10()
    ensures
        entry_ok(toggle_flag_at(10)),
{
            reveal_strlit("--glass-reflect");
            reveal_strlit("glass_reflect");
            reveal_strlit("--repaired-lighting");
            reveal_strlit("legacy_lighting");
            reveal_strlit("--repaired-water");
            reveal_strlit("legacy_water");
            reveal_strlit("--no-probe-shadow");
            reveal_strlit("bounce_shadow");
            reveal_strlit("--no-fade");
            reveal_strlit("cross_fade");
            assert(toggle_flag_at(10) == ("--glass-reflect", 10usize, true));
            assert(toggle_default_at(10).0 == "glass_reflect");
            assert("--glass-reflect"@.take(5)[2] != 'n');
            assert(flag_words("--glass-reflect"@) =~= "glass_reflect"@);
}

proof fn lemma_toggle_entry_11()
    ensures
        entry_ok(toggle_flag_at(11)),
{
            reveal_strlit("--tree-blue-noise");
            reveal_strlit("tree_blue_noise");
            reveal_strlit("--repaired-lighting");
            reveal_strlit("legacy_lighting");
            reveal_strlit("--repaired-water");
            reveal_strlit("legacy_water");
            reveal_strlit("--no-probe-shadow");
            reveal_strlit("bounce_shadow");
            reveal_strlit("--no-fade");
            reveal_strlit("cross_fade");
            assert(toggle_flag_at(11) == ("--tree-blue-noise", 11usize, true));
            assert("--tree-blue-noise"@[2] != "--no-probe-shadow"@[2]);
            assert(toggle_default_at(11).0 == "tree_blue_noise");
            assert("--tree-blue-noise"@.take(5)[2] != 'n');
            assert(flag_words("--tree-blue-noise"@) =~= "tree_blue_noise"@);
}

proof fn lemma_toggle_entry_12()
    ensures
        entry_ok(toggle_flag_at(12)),
{
            reveal_strlit("--meadow-side");
            reveal_strlit("meadow_side");
            reveal_strlit("--repaired-lighting");
            reveal_strlit("legacy_lighting");
            reveal_strlit("--repaired-water");
            reveal_strlit("legacy_water");
            reveal_strlit("--no-probe-shadow");
            reveal_strlit("bounce_shadow");
            reveal_strlit("--no-fade");
            reveal_strlit("cross_fade");
            assert(toggle_flag_at(12) == ("--meadow-side", 12usize, true));
            assert(toggle_default_at(12).0 == "meadow_side");
            assert("--meadow-side"@.take(5)[2] != 'n');
            assert(flag_words("--meadow-side"@) =~= "meadow_side"@);
}

proof fn lemma_toggle_entry_13()
    ensures
        entry_ok(toggle_flag_at(13)),
{
            reveal_strlit("--grass-dense");
            reveal_strlit("grass_dense");
            reveal_strlit("--repaired-lighting");
            reveal_strlit("legacy_lighting");
            reveal_strlit("--repaired-water");
            reveal_strlit("legacy_water");
            reveal_strlit("--no-probe-shadow");
            reveal_strlit("bounce_shadow");
            reveal_strlit("--no-fade");
            reveal_strlit("cross_fade");
            assert(toggle_flag_at(13) == ("--grass-dense", 13usize, true));
            assert(toggle_default_at(13).0 == "grass_dense");
            assert("--grass-dense"@.take(5)[2] != 'n');
            assert(flag_words("--grass-dense"@) =~= "grass_dense"@);
}

proof fn lemma_toggle_entry_14()
    ensures
        entry_ok(toggle_flag_at(14)),
{
            reveal_strlit("--wind-sway");
            reveal_strlit("wind_sway");
            reveal_strlit("--repaired-lighting");
            reveal_strlit("legacy_lighting");
            reveal_strlit("--repaired-water");
            reveal_strlit("legacy_water");
            reveal_strlit("--no-probe-shadow");
            reveal_strlit("bounce_shadow");
            reveal_strlit("--no-fade");
            reveal_strlit("cross_fade");
            assert(toggle_flag_at(14) == ("--wind-sway", 14usize, true));
            assert(toggle_default_at(14).0 == "wind_sway");
            assert("--wind-sway"@.take(5)[2] != 'n');
            assert(flag_words("--wind-sway"@) =~= "wind_sway"@);
}

proof fn lemma_toggle_entry_15()
    ensures
        entry_ok(toggle_flag_at(15)),
{
            reveal_strlit("--soft-shadows");
            reveal_strlit("soft_shadows");
            reveal_strlit("--repaired-lighting");
            reveal_strlit("legacy_lighting");
            reveal_strlit("--repaired-water");
            reveal_strlit("legacy_water");
            reveal_strlit("--no-probe-shadow");
            reveal_strlit("bounce_shadow");
            reveal_strlit("--no-fade");
            reveal_strlit("cross_fade");
            assert(toggle_flag_at(15) == ("--soft-shadows", 15usize, true));
            assert(toggle_default_at(15).0 == "soft_shadows");
            assert("--soft-shadows"@.take(5)[2] != 'n');
            assert(flag_words("--soft-shadows"@) =~= "soft_shadows"@);
}

proof fn lemma_toggle_entry_16()
    ensures
        entry_ok(toggle_flag_at(16)),
{
            reveal_strlit("--no-soft-shadows");
            reveal_strlit("soft_shadows");
            reveal_strlit("--repaired-lighting");
            reveal_strlit("legacy_lighting");
            reveal_strlit("--repaired-water");
            reveal_strlit("legacy_water");
            reveal_strlit("--no-probe-shadow");
            reveal_strlit("bounce_shadow");
            reveal_strlit("--no-fade");
            reveal_strlit("cross_fade");
            assert(toggle_flag_at(16) == ("--no-soft-shadows", 15usize, false));
            assert("--no-soft-shadows"@[5] != "--no-probe-shadow"@[5]);
            assert(toggle_default_at(15).0 == "soft_shadows");
            assert("--no-soft-shadows"@.take(5) =~= seq!['-', '-', 'n', 'o', '-']);
            assert(flag_words("--no-soft-shadows"@) =~= "soft_shadows"@);
}

proof fn lemma_toggle_entry_17()
    ensures
        entry_ok(toggle_flag_at(17)),
{
            reveal_strlit("--no-wind-sway");
            reveal_strlit("wind_sway");
            reveal_strlit("--repaired-lighting");
            reveal_strlit("legacy_lighting");
            reveal_strlit("--repaired-water");
            reveal_strlit("legacy_water");
            reveal_strlit("--no-probe-shadow");
            reveal_strlit("bounce_shadow");
            reveal_strlit("--no-fade");
            reveal_strlit("cross_fade");
            assert(toggle_flag_at(17) == ("--no-wind-sway", 14usize, false));
            assert(toggle_default_at(14).0 == "wind_sway");
            assert("--no-wind-sway"@.take(5) =~= seq!['-', '-', 'n', 'o', '-']);
            assert(flag_words("--no-wind-sway"@) =~= "wind_sway"@);
}

proof fn lemma_toggle_entry_18()
    ensures
        entry_ok(toggle_flag_at(18)),
{
            reveal_strlit("--no-water-look");
            reveal_strlit("water_look");
            reveal_strlit("--repaired-lighting");
            reveal_strlit("legacy_lighting");
            reveal_strlit("--repaired-water");
            reveal_strlit("legacy_water");
            reveal_strlit("--no-probe-shadow");
            reveal_strlit("bounce_shadow");
            reveal_strlit("--no-fade");
            reveal_strlit("cross_fade");
            assert(toggle_flag_at(18) == ("--no-water-look", 6usize, false));
            assert(toggle_default_at(6).0 == "water_look");
            assert("--no-water-look"@.take(5) =~= seq!['-', '-', 'n', 'o', '-']);
            assert(flag_words("--no-water-look"@) =~= "water_look"@);
}

proof fn lemma_toggle_entry_19()
    ensures
        entry_ok(toggle_flag_at(19)),
{
            reveal_strlit("--no-glass-reflect");
            reveal_strlit("glass_reflect");
            reveal_strlit("--repaired-lighting");
            reveal_strlit("legacy_lighting");
            reveal_strlit("--repaired-water");
            reveal_strlit("legacy_water");
            reveal_strlit("--no-probe-shadow");
            reveal_strlit("bounce_shadow");
            reveal_strlit("--no-fade");
            reveal_strlit("cross_fade");
            assert(toggle_flag_at(19) == ("--no-glass-reflect", 10usize, false));
            assert(toggle_default_at(10).0 == "glass_reflect");
            assert("--no-glass-reflect"@.take(5) =~= seq!['-', '-', 'n', 'o', '-']);
            assert(flag_words("--no-glass-reflect"@) =~= "glass_reflect"@);
}

proof fn lemma_toggle_entry_20()
    ensures
        entry_ok(toggle_flag_at(20)),
{
            reveal_strlit("--isolate-glass");
            reveal_strlit("isolate_glass");
            reveal_strlit("--repaired-lighting");
            reveal_strlit("legacy_lighting");
            reveal_strlit("--repaired-water");
            reveal_strlit("legacy_water");
            reveal_strlit("--no-probe-shadow");
            reveal_strlit("bounce_shadow");
            reveal_strlit("--no-fade");
            reveal_strlit("cross_fade");
            assert(toggle_flag_at(20) == ("--isolate-glass", 16usize, true));
            assert(toggle_default_at(16).0 == "isolate_glass");
            assert("--isolate-glass"@.take(5)[2] != 'n');
            assert(flag_words("--isolate-glass"@) =~= "isolate_glass"@);
}

proof fn lemma_toggle_entry_21()
    ensures
        entry_ok(toggle_flag_at(21)),
{
            reveal_strlit("--no-isolate-glass");
            reveal_strlit("isolate_glass");
            reveal_strlit("--repaired-lighting");
            reveal_strlit("legacy_lighting");
            reveal_strlit("--repaired-water");
            reveal_strlit("legacy_water");
            reveal_strlit("--no-probe-shadow");
            reveal_strlit("bounce_shadow");
            reveal_strlit("--no-fade");
            reveal_strlit("cross_fade");
            assert(toggle_flag_at(21) == ("--no-isolate-glass", 16usize, false));
            assert(toggle_default_at(16).0 == "isolate_glass");
            assert("--no-isolate-glass"@.take(5) =~= seq!['-', '-', 'n', 'o', '-']);
            assert(flag_words("--no-isolate-glass"@) =~= "isolate_glass"@);
}

proof fn lemma_toggle_entry_22()
    ensures
        entry_ok(toggle_flag_at(22)),
{
            reveal_strlit("--legacy-lighting");
            reveal_strlit("legacy_lighting");
            reveal_strlit("--repaired-lighting");
            reveal_strlit("--repaired-water");
            reveal_strlit("legacy_water");
            reveal_strlit("--no-probe-shadow");
            reveal_strlit("bounce_shadow");
            reveal_strlit("--no-fade");
            reveal_strlit("cross_fade");
            assert(toggle_flag_at(22) == ("--legacy-lighting", 17usize, true));
            assert("--legacy-lighting"@[2] != "--no-probe-shadow"@[2]);
            assert(toggle_default_at(17).0 == "legacy_lighting");
            assert("--legacy-lighting"@.take(5)[2] != 'n');
            assert(flag_words("--legacy-lighting"@) =~= "legacy_lighting"@);
}

proof fn lemma_toggle_entry_23()
    ensures
        entry_ok(toggle_flag_at(23)),
{
            reveal_strlit("--repaired-lighting");
            reveal_strlit("legacy_lighting");
            reveal_strlit("--repaired-water");
            reveal_strlit("legacy_water");
            reveal_strlit("--no-probe-shadow");
            reveal_strlit("bounce_shadow");
            reveal_strlit("--no-fade");
            reveal_strlit("cross_fade");
            assert(toggle_flag_at(23) == ("--repaired-lighting", 17usize, false));
            assert(toggle_default_at(17).0 == "legacy_lighting");
            assert(renamed("--repaired-lighting"@) == Some(("legacy_lighting"@, false)));
}

proof fn lemma_toggle_entry_24()
    ensures
        entry_ok(toggle_flag_at(24)),
{
            reveal_strlit("--legacy-water");
            reveal_strlit("legacy_water");
            reveal_strlit("--repaired-lighting");
            reveal_strlit("legacy_lighting");
            reveal_strlit("--repaired-water");
            reveal_strlit("--no-probe-shadow");
            reveal_strlit("bounce_shadow");
            reveal_strlit("--no-fade");
            reveal_strlit("cross_fade");
            assert(toggle_flag_at(24) == ("--legacy-water", 18usize, true));
            assert(toggle_default_at(18).0 == "legacy_water");
            assert("--legacy-water"@.take(5)[2] != 'n');
            assert(flag_words("--legacy-water"@) =~= "legacy_water"@);
}

proof fn lemma_toggle_entry_25()
    ensures
        entry_ok(toggle_flag_at(25)),
{
            reveal_strlit("--repaired-water");
            reveal_strlit("legacy_water");
            reveal_strlit("--repaired-lighting");
            reveal_strlit("legacy_lighting");
            reveal_strlit("--no-probe-shadow");
            reveal_strlit("bounce_shadow");
            reveal_strlit("--no-fade");
            reveal_strlit("cross_fade");
            assert(toggle_flag_at(25) == ("--repaired-water", 18usize, false));
            assert(toggle_default_at(18).0 == "legacy_water");
            assert("--repaired-water"@.len() != "--repaired-lighting"@.len());
            assert(renamed("--repaired-water"@) == Some(("legacy_water"@, false)));
}

proof fn lemma_toggle_entry_26()
    ensures
        entry_ok(toggle_flag_at(26)),
{
            reveal_strlit("--soft-shadow-hq");
            reveal_strlit("soft_shadow_hq");
            reveal_strlit("--repaired-lighting");
            reveal_strlit("legacy_lighting");
            reveal_strlit("--repaired-water");
            reveal_strlit("legacy_water");
            reveal_strlit("--no-probe-shadow");
            reveal_strlit("bounce_shadow");
            reveal_strlit("--no-fade");
            reveal_strlit("cross_fade");
            assert(toggle_flag_at(26) == ("--soft-shadow-hq", 19usize, true));
            assert("--soft-shadow-hq"@[2] != "--repaired-water"@[2]);
            assert(toggle_default_at(19).0 == "soft_shadow_hq");
            assert("--soft-shadow-hq"@.take(5)[2] != 'n');
            assert(flag_words("--soft-shadow-hq"@) =~= "soft_shadow_hq"@);
}

proof fn lemma_toggle_entry_27()
    ensures
        entry_ok(toggle_flag_at(27)),
{
            reveal_strlit("--no-soft-shadow-hq");
            reveal_strlit("soft_shadow_hq");
            reveal_strlit("--repaired-lighting");
            reveal_strlit("legacy_lighting");
            reveal_strlit("--repaired-water");
            reveal_strlit("legacy_water");
            reveal_strlit("--no-probe-shadow");
            reveal_strlit("bounce_shadow");
            reveal_strlit("--no-fade");
            reveal_strlit("cross_fade");
            assert(toggle_flag_at(27) == ("--no-soft-shadow-hq", 19usize, false));
            assert("--no-soft-shadow-hq"@[2] != "--repaired-lighting"@[2]);
            assert(toggle_default_at(19).0 == "soft_shadow_hq");
            assert("--no-soft-shadow-hq"@.take(5) =~= seq!['-', '-', 'n', 'o', '-']);
            assert(flag_words("--no-soft-shadow-hq"@) =~= "soft_shadow_hq"@);
}

proof fn lemma_toggle_entry_28()
    ensures
        entry_ok(toggle_flag_at(28)),
{
            reveal_strlit("--compact-shade-hit");
            reveal_strlit("compact_shade_hit");
            reveal_strlit("--repaired-lighting");
            reveal_strlit("legacy_lighting");
            reveal_strlit("--repaired-water");
            reveal_strlit("legacy_water");
            reveal_strlit("--no-probe-shadow");
            reveal_strlit("bounce_shadow");
            reveal_strlit("--no-fade");
            reveal_strlit("cross_fade");
            assert(toggle_flag_at(28) == ("--compact-shade-hit", 20usize, true));
            assert("--compact-shade-hit"@[2] != "--repaired-lighting"@[2]);
            assert(toggle_default_at(20).0 == "compact_shade_hit");
            assert("--compact-shade-hit"@.take(5)[2] != 'n');
            assert(flag_words("--compact-shade-hit"@) =~= "compact_shade_hit"@);
}

proof fn lemma_toggle_entry_29()
    ensures
        entry_ok(toggle_flag_at(29)),
{
            reveal_strlit("--no-compact-shade-hit");
            reveal_strlit("compact_shade_hit");
            reveal_strlit("--repaired-lighting");
            reveal_strlit("legacy_lighting");
            reveal_strlit("--repaired-water");
            reveal_strlit("legacy_water");
            reveal_strlit("--no-probe-shadow");
            reveal_strlit("bounce_shadow");
            reveal_strlit("--no-fade");
            reveal_strlit("cross_fade");
            assert(toggle_flag_at(29) == ("--no-compact-shade-hit", 20usize, false));
            assert(toggle_default_at(20).0 == "compact_shade_hit");
            assert("--no-compact-shade-hit"@.take(5) =~= seq!['-', '-', 'n', 'o', '-']);
            assert(flag_words("--no-compact-shade-hit"@) =~= "compact_shade_hit"@);
}

proof fn lemma_toggle_entry_30()
    ensures
        entry_ok(toggle_flag_at(30)),
{
            reveal_strlit("--snell-bend");
            reveal_strlit("snell_bend");
            reveal_strlit("--repaired-lighting");
            reveal_strlit("legacy_lighting");
            reveal_strlit("--repaired-water");
            reveal_strlit("legacy_water");
            reveal_strlit("--no-probe-shadow");
            reveal_strlit("bounce_shadow");
            reveal_strlit("--no-fade");
            reveal_strlit("cross_fade");
            assert(toggle_flag_at(30) == ("--snell-bend", 21usize, true));
            assert(toggle_default_at(21).0 == "snell_bend");
            assert("--snell-bend"@.take(5)[2] != 'n');
            assert(flag_words("--snell-bend"@) =~= "snell_bend"@);
}

proof fn lemma_toggle_entry_31()
    ensures
        entry_ok(toggle_flag_at(31)),
{
            reveal_strlit("--tint-balance");
            reveal_strlit("tint_balance");
            reveal_strlit("--repaired-lighting");
            reveal_strlit("legacy_lighting");
            reveal_strlit("--repaired-water");
            reveal_strlit("legacy_water");
            reveal_strlit("--no-probe-shadow");
            reveal_strlit("bounce_shadow");
            reveal_strlit("--no-fade");
            reveal_strlit("cross_fade");
            assert(toggle_flag_at(31) == ("--tint-balance", 22usize, true));
            assert(toggle_default_at(22).0 == "tint_balance");
            assert("--tint-balance"@.take(5)[2] != 'n');
            assert(flag_words("--tint-balance"@) =~= "tint_balance"@);
}

proof fn lemma_toggle_entry_32()
    ensures
        entry_ok(toggle_flag_at(32)),
{
            reveal_strlit("--no-biomes");
            reveal_strlit("biomes");
            reveal_strlit("--repaired-lighting");
            reveal_strlit("legacy_lighting");
            reveal_strlit("--repaired-water");
            reveal_strlit("legacy_water");
            reveal_strlit("--no-probe-shadow");
            reveal_strlit("bounce_shadow");
            reveal_strlit("--no-fade");
            reveal_strlit("cross_fade");
            assert(toggle_flag_at(32) == ("--no-biomes", 23usize, false));
            assert(toggle_default_at(23).0 == "biomes");
            assert("--no-biomes"@.take(5) =~= seq!['-', '-', 'n', 'o', '-']);
            assert(flag_words("--no-biomes"@) =~= "biomes"@);
}

proof fn lemma_toggle_entry_33()
    ensures
        entry_ok(toggle_flag_at(33)),
{
            reveal_strlit("--no-foliage");
            reveal_strlit("foliage");
            reveal_strlit("--repaired-lighting");
            reveal_strlit("legacy_lighting");
            reveal_strlit("--repaired-water");
            reveal_strlit("legacy_water");
            reveal_strlit("--no-probe-shadow");
            reveal_strlit("bounce_shadow");
            reveal_strlit("--no-fade");
            reveal_strlit("cross_fade");
            assert(toggle_flag_at(33) == ("--no-foliage", 24usize, false));
            assert(toggle_default_at(24).0 == "foliage");
            assert("--no-foliage"@.take(5) =~= seq!['-', '-', 'n', 'o', '-']);
            assert(flag_words("--no-foliage"@) =~= "foliage"@);
}

proof fn lemma_toggle_entry_34()
    ensures
        entry_ok(toggle_flag_at(34)),
{
            reveal_strlit("--no-meadow");
            reveal_strlit("meadow");
            reveal_strlit("--repaired-lighting");
            reveal_strlit("legacy_lighting");
            reveal_strlit("--repaired-water");
            reveal_strlit("legacy_water");
            reveal_strlit("--no-probe-shadow");
            reveal_strlit("bounce_shadow");
            reveal_strlit("--no-fade");
            reveal_strlit("cross_fade");
            assert(toggle_flag_at(34) == ("--no-meadow", 25usize, false));
            assert(toggle_default_at(25).0 == "meadow");
            assert("--no-meadow"@.take(5) =~= seq!['-', '-', 'n', 'o', '-']);
            assert(flag_words("--no-meadow"@) =~= "meadow"@);
}

proof fn lemma_toggle_entry_35()
    ensures
        entry_ok(toggle_flag_at(35)),
{
            reveal_strlit("--no-probe-shadow");
            reveal_strlit("bounce_shadow");
            reveal_strlit("--repaired-lighting");
            reveal_strlit("legacy_lighting");
            reveal_strlit("--repaired-water");
            reveal_strlit("legacy_water");
            reveal_strlit("--no-fade");
            reveal_strlit("cross_fade");
            assert(toggle_flag_at(35) == ("--no-probe-shadow", 26usize, false));
            assert(toggle_default_at(26).0 == "bounce_shadow");
            assert("--no-probe-shadow"@.len() != "--repaired-lighting"@.len());
            assert("--no-probe-shadow"@.len() != "--repaired-water"@.len());
            assert(renamed("--no-probe-shadow"@) == Some(("bounce_shadow"@, false)));
}

proof fn lemma_toggle_entry_36()
    ensures
        entry_ok(toggle_flag_at(36)),
{
            reveal_strlit("--no-tint");
            reveal_strlit("tint");
            reveal_strlit("--repaired-lighting");
            reveal_strlit("legacy_lighting");
            reveal_strlit("--repaired-water");
            reveal_strlit("legacy_water");
            reveal_strlit("--no-probe-shadow");
            reveal_strlit("bounce_shadow");
            reveal_strlit("--no-fade");
            reveal_strlit("cross_fade");
            assert(toggle_flag_at(36) == ("--no-tint", 27usize, false));
            assert("--no-tint"@[5] != "--no-fade"@[5]);
            assert(toggle_default_at(27).0 == "tint");
            assert("--no-tint"@.take(5) =~= seq!['-', '-', 'n', 'o', '-']);
            assert(flag_words("--no-tint"@) =~= "tint"@);
}

proof fn lemma_toggle_entry_37()
    ensures
        entry_ok(toggle_flag_at(37)),
{
            reveal_strlit("--no-wave-aniso");
            reveal_strlit("wave_aniso");
            reveal_strlit("--repaired-lighting");
            reveal_strlit("legacy_lighting");
            reveal_strlit("--repaired-water");
            reveal_strlit("legacy_water");
            reveal_strlit("--no-probe-shadow");
            reveal_strlit("bounce_shadow");
            reveal_strlit("--no-fade");
            reveal_strlit("cross_fade");
            assert(toggle_flag_at(37) == ("--no-wave-aniso", 28usize, false));
            assert(toggle_default_at(28).0 == "wave_aniso");
            assert("--no-wave-aniso"@.take(5) =~= seq!['-', '-', 'n', 'o', '-']);
            assert(flag_words("--no-wave-aniso"@) =~= "wave_aniso"@);
}

proof fn lemma_toggle_entry_38()
    ensures
        entry_ok(toggle_flag_at(38)),
{
            reveal_strlit("--no-wave-shoal");
            reveal_strlit("wave_shoal");
            reveal_strlit("--repaired-lighting");
            reveal_strlit("legacy_lighting");
            reveal_strlit("--repaired-water");
            reveal_strlit("legacy_water");
            reveal_strlit("--no-probe-shadow");
            reveal_strlit("bounce_shadow");
            reveal_strlit("--no-fade");
            reveal_strlit("cross_fade");
            assert(toggle_flag_at(38) == ("--no-wave-shoal", 29usize, false));
            assert(toggle_default_at(29).0 == "wave_shoal");
            assert("--no-wave-shoal"@.take(5) =~= seq!['-', '-', 'n', 'o', '-']);
            assert(flag_words("--no-wave-shoal"@) =~= "wave_shoal"@);
}

proof fn lemma_toggle_entry_39()
    ensures
        entry_ok(toggle_flag_at(39)),
{
            reveal_strlit("--no-wave-fill");
            reveal_strlit("wave_fill");
            reveal_strlit("--repaired-lighting");
            reveal_strlit("legacy_lighting");
            reveal_strlit("--repaired-water");
            reveal_strlit("legacy_water");
            reveal_strlit("--no-probe-shadow");
            reveal_strlit("bounce_shadow");
            reveal_strlit("--no-fade");
            reveal_strlit("cross_fade");
            assert(toggle_flag_at(39) == ("--no-wave-fill", 30usize, false));
            assert(toggle_default_at(30).0 == "wave_fill");
            assert("--no-wave-fill"@.take(5) =~= seq!['-', '-', 'n', 'o', '-']);
            assert(flag_words("--no-wave-fill"@) =~= "wave_fill"@);
}

proof fn lemma_toggle_entry_40()
    ensures
        entry_ok(toggle_flag_at(40)),
{
            reveal_strlit("--no-terrain-shafts");
            reveal_strlit("terrain_shafts");
            reveal_strlit("--repaired-lighting");
            reveal_strlit("legacy_lighting");
            reveal_strlit("--repaired-water");
            reveal_strlit("legacy_water");
            reveal_strlit("--no-probe-shadow");
            reveal_strlit("bounce_shadow");
            reveal_strlit("--no-fade");
            reveal_strlit("cross_fade");
            assert(toggle_flag_at(40) == ("--no-terrain-shafts", 31usize, false));
            assert("--no-terrain-shafts"@[2] != "--repaired-lighting"@[2]);
            assert(toggle_default_at(31).0 == "terrain_shafts");
            assert("--no-terrain-shafts"@.take(5) =~= seq!['-', '-', 'n', 'o', '-']);
            assert(flag_words("--no-terrain-shafts"@) =~= "terrain_shafts"@);
}

proof fn lemma_toggle_entry_41()
    ensures
        entry_ok(toggle_flag_at(41)),
{
            reveal_strlit("--no-tex-variation");
            reveal_strlit("tex_variation");
            reveal_strlit("--repaired-lighting");
            reveal_strlit("legacy_lighting");
            reveal_strlit("--repaired-water");
            reveal_strlit("legacy_water");
            reveal_strlit("--no-probe-shadow");
            reveal_strlit("bounce_shadow");
            reveal_strlit("--no-fade");
            reveal_strlit("cross_fade");
            assert(toggle_flag_at(41) == ("--no-tex-variation", 32usize, false));
            assert(toggle_default_at(32).0 == "tex_variation");
            assert("--no-tex-variation"@.take(5) =~= seq!['-', '-', 'n', 'o', '-']);
            assert(flag_words("--no-tex-variation"@) =~= "tex_variation"@);
}

proof fn lemma_toggle_entry_42()
    ensures
        entry_ok(toggle_flag_at(42)),
{
            reveal_strlit("--no-leaf-cutout");
            reveal_strlit("leaf_cutout");
            reveal_strlit("--repaired-lighting");
            reveal_strlit("legacy_lighting");
            reveal_strlit("--repaired-water");
            reveal_strlit("legacy_water");
            reveal_strlit("--no-probe-shadow");
            reveal_strlit("bounce_shadow");
            reveal_strlit("--no-fade");
            reveal_strlit("cross_fade");
            assert(toggle_flag_at(42) == ("--no-leaf-cutout", 33usize, false));
            assert("--no-leaf-cutout"@[2] != "--repaired-water"@[2]);
            assert(toggle_default_at(33).0 == "leaf_cutout");
            assert("--no-leaf-cutout"@.take(5) =~= seq!['-', '-', 'n', 'o', '-']);
            assert(flag_words("--no-leaf-cutout"@) =~= "leaf_cutout"@);
}

proof fn lemma_toggle_entry_43()
    ensures
        entry_ok(toggle_flag_at(43)),
{
            reveal_strlit("--no-flat-secondary");
            reveal_strlit("flat_secondary");
            reveal_strlit("--repaired-lighting");
            reveal_strlit("legacy_lighting");
            reveal_strlit("--repaired-water");
            reveal_strlit("legacy_water");
            reveal_strlit("--no-probe-shadow");
            reveal_strlit("bounce_shadow");
            reveal_strlit("--no-fade");
            reveal_strlit("cross_fade");
            assert(toggle_flag_at(43) == ("--no-flat-secondary", 34usize, false));
            assert("--no-flat-secondary"@[2] != "--repaired-lighting"@[2]);
            assert(toggle_default_at(34).0 == "flat_secondary");
            assert("--no-flat-secondary"@.take(5) =~= seq!['-', '-', 'n', 'o', '-']);
            assert(flag_words("--no-flat-secondary"@) =~= "flat_secondary"@);
}

proof fn lemma_toggle_entry_44()
    ensures
        entry_ok(toggle_flag_at(44)),
{
            reveal_strlit("--no-water-far");
            reveal_strlit("water_far");
            reveal_strlit("--repaired-lighting");
            reveal_strlit("legacy_lighting");
            reveal_strlit("--repaired-water");
            reveal_strlit("legacy_water");
            reveal_strlit("--no-probe-shadow");
            reveal_strlit("bounce_shadow");
            reveal_strlit("--no-fade");
            reveal_strlit("cross_fade");
            assert(toggle_flag_at(44) == ("--no-water-far", 35usize, false));
            assert(toggle_default_at(35).0 == "water_far");
            assert("--no-water-far"@.take(5) =~= seq!['-', '-', 'n', 'o', '-']);
            assert(flag_words("--no-water-far"@) =~= "water_far"@);
}

proof fn lemma_toggle_entry_45()
    ensures
        entry_ok(toggle_flag_at(45)),
{
            reveal_strlit("--no-water-dark");
            reveal_strlit("water_dark");
            reveal_strlit("--repaired-lighting");
            reveal_strlit("legacy_lighting");
            reveal_strlit("--repaired-water");
            reveal_strlit("legacy_water");
            reveal_strlit("--no-probe-shadow");
            reveal_strlit("bounce_shadow");
            reveal_strlit("--no-fade");
            reveal_strlit("cross_fade");
            assert(toggle_flag_at(45) == ("--no-water-dark", 36usize, false));
            assert(toggle_default_at(36).0 == "water_dark");
            assert("--no-water-dark"@.take(5) =~= seq!['-', '-', 'n', 'o', '-']);
            assert(flag_words("--no-water-dark"@) =~= "water_dark"@);
}

proof fn lemma_toggle_entry_46()
    ensures
        entry_ok(toggle_flag_at(46)),
{
            reveal_strlit("--no-snell");
            reveal_strlit("snell");
            reveal_strlit("--repaired-lighting");
            reveal_strlit("legacy_lighting");
            reveal_strlit("--repaired-water");
            reveal_strlit("legacy_water");
            reveal_strlit("--no-probe-shadow");
            reveal_strlit("bounce_shadow");
            reveal_strlit("--no-fade");
            reveal_strlit("cross_fade");
            assert(toggle_flag_at(46) == ("--no-snell", 37usize, false));
            assert(toggle_default_at(37).0 == "snell");
            assert("--no-snell"@.take(5) =~= seq!['-', '-', 'n', 'o', '-']);
            assert(flag_words("--no-snell"@) =~= "snell"@);
}

proof fn lemma_toggle_entry_47()
    ensures
        entry_ok(toggle_flag_at(47)),
{
            reveal_strlit("--no-probe-cube");
            reveal_strlit("probe_cube");
            reveal_strlit("--repaired-lighting");
            reveal_strlit("legacy_lighting");
            reveal_strlit("--repaired-water");
            reveal_strlit("legacy_water");
            reveal_strlit("--no-probe-shadow");
            reveal_strlit("bounce_shadow");
            reveal_strlit("--no-fade");
            reveal_strlit("cross_fade");
            assert(toggle_flag_at(47) == ("--no-probe-cube", 38usize, false));
            assert(toggle_default_at(38).0 == "probe_cube");
            assert("--no-probe-cube"@.take(5) =~= seq!['-', '-', 'n', 'o', '-']);
            assert(flag_words("--no-probe-cube"@) =~= "probe_cube"@);
}

proof fn lemma_toggle_entry_48()
    ensures
        entry_ok(toggle_flag_at(48)),
{
            reveal_strlit("--no-probe-bounce");
            reveal_strlit("probe_bounce");
            reveal_strlit("--repaired-lighting");
            reveal_strlit("legacy_lighting");
            reveal_strlit("--repaired-water");
            reveal_strlit("legacy_water");
            reveal_strlit("--no-probe-shadow");
            reveal_strlit("bounce_shadow");
            reveal_strlit("--no-fade");
            reveal_strlit("cross_fade");
            assert(toggle_flag_at(48) == ("--no-probe-bounce", 39usize, false));
            assert("--no-probe-bounce"@[11] != "--no-probe-shadow"@[11]);
            assert(toggle_default_at(39).0 == "probe_bounce");
            assert("--no-probe-bounce"@.take(5) =~= seq!['-', '-', 'n', 'o', '-']);
            assert(flag_words("--no-probe-bounce"@) =~= "probe_bounce"@);
}

proof fn lemma_toggle_entry_49()
    ensures
        entry_ok(toggle_flag_at(49)),
{
            reveal_strlit("--no-probe-sun");
            reveal_strlit("probe_sun");
            reveal_strlit("--repaired-lighting");
            reveal_strlit("legacy_lighting");
            reveal_strlit("--repaired-water");
            reveal_strlit("legacy_water");
            reveal_strlit("--no-probe-shadow");
            reveal_strlit("bounce_shadow");
            reveal_strlit("--no-fade");
            reveal_strlit("cross_fade");
            assert(toggle_flag_at(49) == ("--no-probe-sun", 40usize, false));
            assert(toggle_default_at(40).0 == "probe_sun");
            assert("--no-probe-sun"@.take(5) =~= seq!['-', '-', 'n', 'o', '-']);
            assert(flag_words("--no-probe-sun"@) =~= "probe_sun"@);
}

proof fn lemma_toggle_entry_50()
    ensures
        entry_ok(toggle_flag_at(50)),
{
            reveal_strlit("--probe-sun-high");
            reveal_strlit("probe_sun_high");
            reveal_strlit("--repaired-lighting");
            reveal_strlit("legacy_lighting");
            reveal_strlit("--repaired-water");
            reveal_strlit("legacy_water");
            reveal_strlit("--no-probe-shadow");
            reveal_strlit("bounce_shadow");
            reveal_strlit("--no-fade");
            reveal_strlit("cross_fade");
            assert(toggle_flag_at(50) == ("--probe-sun-high", 41usize, true));
            assert("--probe-sun-high"@[2] != "--repaired-water"@[2]);
            assert(toggle_default_at(41).0 == "probe_sun_high");
            assert("--probe-sun-high"@.take(5)[2] != 'n');
            assert(flag_words("--probe-sun-high"@) =~= "probe_sun_high"@);
}

proof fn lemma_toggle_entry_51()
    ensures
        entry_ok(toggle_flag_at(51)),
{
            reveal_strlit("--no-light-rgb");
            reveal_strlit("light_rgb");
            reveal_strlit("--repaired-lighting");
            reveal_strlit("legacy_lighting");
            reveal_strlit("--repaired-water");
            reveal_strlit("legacy_water");
            reveal_strlit("--no-probe-shadow");
            reveal_strlit("bounce_shadow");
            reveal_strlit("--no-fade");
            reveal_strlit("cross_fade");
            assert(toggle_flag_at(51) == ("--no-light-rgb", 42usize, false));
            assert(toggle_default_at(42).0 == "light_rgb");
            assert("--no-light-rgb"@.take(5) =~= seq!['-', '-', 'n', 'o', '-']);
            assert(flag_words("--no-light-rgb"@) =~= "light_rgb"@);
}

proof fn lemma_toggle_entry_52()
    ensures
        entry_ok(toggle_flag_at(52)),
{
            reveal_strlit("--no-sky-tint");
            reveal_strlit("sky_tint");
            reveal_strlit("--repaired-lighting");
            reveal_strlit("legacy_lighting");
            reveal_strlit("--repaired-water");
            reveal_strlit("legacy_water");
            reveal_strlit("--no-probe-shadow");
            reveal_strlit("bounce_shadow");
            reveal_strlit("--no-fade");
            reveal_strlit("cross_fade");
            assert(toggle_flag_at(52) == ("--no-sky-tint", 43usize, false));
            assert(toggle_default_at(43).0 == "sky_tint");
            assert("--no-sky-tint"@.take(5) =~= seq!['-', '-', 'n', 'o', '-']);
            assert(flag_words("--no-sky-tint"@) =~= "sky_tint"@);
}

proof fn lemma_toggle_entry_53()
    ensures
        entry_ok(toggle_flag_at(53)),
{
            reveal_strlit("--no-sky-specular");
            reveal_strlit("sky_specular");
            reveal_strlit("--repaired-lighting");
            reveal_strlit("legacy_lighting");
            reveal_strlit("--repaired-water");
            reveal_strlit("legacy_water");
            reveal_strlit("--no-probe-shadow");
            reveal_strlit("bounce_shadow");
            reveal_strlit("--no-fade");
            reveal_strlit("cross_fade");
            assert(toggle_flag_at(53) == ("--no-sky-specular", 44usize, false));
            assert("--no-sky-specular"@[5] != "--no-probe-shadow"@[5]);
            assert(toggle_default_at(44).0 == "sky_specular");
            assert("--no-sky-specular"@.take(5) =~= seq!['-', '-', 'n', 'o', '-']);
            assert(flag_words("--no-sky-specular"@) =~= "sky_specular"@);
}

proof fn lemma_toggle_entry_54()
    ensures
        entry_ok(toggle_flag_at(54)),
{
            reveal_strlit("--no-full-march");
            reveal_strlit("full_march");
            reveal_strlit("--repaired-lighting");
            reveal_strlit("legacy_lighting");
            reveal_strlit("--repaired-water");
            reveal_strlit("legacy_water");
            reveal_strlit("--no-probe-shadow");
            reveal_strlit("bounce_shadow");
            reveal_strlit("--no-fade");
            reveal_strlit("cross_fade");
            assert(toggle_flag_at(54) == ("--no-full-march", 45usize, false));
            assert(toggle_default_at(45).0 == "full_march");
            assert("--no-full-march"@.take(5) =~= seq!['-', '-', 'n', 'o', '-']);
            assert(flag_words("--no-full-march"@) =~= "full_march"@);
}

proof fn lemma_toggle_entry_55()
    ensures
        entry_ok(toggle_flag_at(55)),
{
            reveal_strlit("--probe-noise");
            reveal_strlit("probe_noise");
            reveal_strlit("--repaired-lighting");
            reveal_strlit("legacy_lighting");
            reveal_strlit("--repaired-water");
            reveal_strlit("legacy_water");
            reveal_strlit("--no-probe-shadow");
            reveal_strlit("bounce_shadow");
            reveal_strlit("--no-fade");
            reveal_strlit("cross_fade");
            assert(toggle_flag_at(55) == ("--probe-noise", 46usize, true));
            assert(toggle_default_at(46).0 == "probe_noise");
            assert("--probe-noise"@.take(5)[2] != 'n');
            assert(flag_words("--probe-noise"@) =~= "probe_noise"@);
}

proof fn lemma_toggle_entry_56()
    ensures
        entry_ok(toggle_flag_at(56)),
{
            reveal_strlit("--march-stats");
            reveal_strlit("march_stats");
            reveal_strlit("--repaired-lighting");
            reveal_strlit("legacy_lighting");
            reveal_strlit("--repaired-water");
            reveal_strlit("legacy_water");
            reveal_strlit("--no-probe-shadow");
            reveal_strlit("bounce_shadow");
            reveal_strlit("--no-fade");
            reveal_strlit("cross_fade");
            assert(toggle_flag_at(56) == ("--march-stats", 47usize, true));
            assert(toggle_default_at(47).0 == "march_stats");
            assert("--march-stats"@.take(5)[2] != 'n');
            assert(flag_words("--march-stats"@) =~= "march_stats"@);
}

proof fn lemma_toggle_entry_57()
    ensures
        entry_ok(toggle_flag_at(57)),
{
            reveal_strlit("--no-glass");
            reveal_strlit("glass");
            reveal_strlit("--repaired-lighting");
            reveal_strlit("legacy_lighting");
            reveal_strlit("--repaired-water");
            reveal_strlit("legacy_water");
            reveal_strlit("--no-probe-shadow");
            reveal_strlit("bounce_shadow");
            reveal_strlit("--no-fade");
            reveal_strlit("cross_fade");
            assert(toggle_flag_at(57) == ("--no-glass", 48usize, false));
            assert(toggle_default_at(48).0 == "glass");
            assert("--no-glass"@.take(5) =~= seq!['-', '-', 'n', 'o', '-']);
            assert(flag_words("--no-glass"@) =~= "glass"@);
}

proof fn lemma_toggle_entry_58()
    ensures
        entry_ok(toggle_flag_at(58)),
{
            reveal_strlit("--no-distant-shadows");
            reveal_strlit("distant_shadows");
            reveal_strlit("--repaired-lighting");
            reveal_strlit("legacy_lighting");
            reveal_strlit("--repaired-water");
            reveal_strlit("legacy_water");
            reveal_strlit("--no-probe-shadow");
            reveal_strlit("bounce_shadow");
            reveal_strlit("--no-fade");
            reveal_strlit("cross_fade");
            assert(toggle_flag_at(58) == ("--no-distant-shadows", 49usize, false));
            assert(toggle_default_at(49).0 == "distant_shadows");
            assert("--no-distant-shadows"@.take(5) =~= seq!['-', '-', 'n', 'o', '-']);
            assert(flag_words("--no-distant-shadows"@) =~= "distant_shadows"@);
}

proof fn lemma_toggle_entry_59()
    ensures
        entry_ok(toggle_flag_at(59)),
{
            reveal_strlit("--no-water-shadow-cut");
            reveal_strlit("water_shadow_cut");
            reveal_strlit("--repaired-lighting");
            reveal_strlit("legacy_lighting");
            reveal_strlit("--repaired-water");
            reveal_strlit("legacy_water");
            reveal_strlit("--no-probe-shadow");
            reveal_strlit("bounce_shadow");
            reveal_strlit("--no-fade");
            reveal_strlit("cross_fade");
            assert(toggle_flag_at(59) == ("--no-water-shadow-cut", 50usize, false));
            assert(toggle_default_at(50).0 == "water_shadow_cut");
            assert("--no-water-shadow-cut"@.take(5) =~= seq!['-', '-', 'n', 'o', '-']);
            assert(flag_words("--no-water-shadow-cut"@) =~= "water_shadow_cut"@);
}

proof fn lemma_toggle_entry_60()
    ensures
        entry_ok(toggle_flag_at(60)),
{
            reveal_strlit("--no-leaf-thin");
            reveal_strlit("leaf_thin");
            reveal_strlit("--repaired-lighting");
            reveal_strlit("legacy_lighting");
            reveal_strlit("--repaired-water");
            reveal_strlit("legacy_water");
            reveal_strlit("--no-probe-shadow");
            reveal_strlit("bounce_shadow");
            reveal_strlit("--no-fade");
            reveal_strlit("cross_fade");
            assert(toggle_flag_at(60) == ("--no-leaf-thin", 51usize, false));
            assert(toggle_default_at(51).0 == "leaf_thin");
            assert("--no-leaf-thin"@.take(5) =~= seq!['-', '-', 'n', 'o', '-']);
            assert(flag_words("--no-leaf-thin"@) =~= "leaf_thin"@);
}

proof fn lemma_toggle_entry_61()
    ensures
        entry_ok(toggle_flag_at(61)),
{
            reveal_strlit("--no-taa");
            reveal_strlit("taa");
            reveal_strlit("--repaired-lighting");
            reveal_strlit("legacy_lighting");
            reveal_strlit("--repaired-water");
            reveal_strlit("legacy_water");
            reveal_strlit("--no-probe-shadow");
            reveal_strlit("bounce_shadow");
            reveal_strlit("--no-fade");
            reveal_strlit("cross_fade");
            assert(toggle_flag_at(61) == ("--no-taa", 52usize, false));
            assert(toggle_default_at(52).0 == "taa");
            assert("--no-taa"@.take(5) =~= seq!['-', '-', 'n', 'o', '-']);
            assert(flag_words("--no-taa"@) =~= "taa"@);
}

proof fn lemma_toggle_entry_62()
    ensures
        entry_ok(toggle_flag_at(62)),
{
            reveal_strlit("--no-fade");
            reveal_strlit("cross_fade");
            reveal_strlit("--repaired-lighting");
            reveal_strlit("legacy_lighting");
            reveal_strlit("--repaired-water");
            reveal_strlit("legacy_water");
            reveal_strlit("--no-probe-shadow");
            reveal_strlit("bounce_shadow");
            assert(toggle_flag_at(62) == ("--no-fade", 53usize, false));
            assert(toggle_default_at(53).0 == "cross_fade");
            assert("--no-fade"@.len() != "--repaired-lighting"@.len());
            assert("--no-fade"@.len() != "--repaired-water"@.len());
            assert("--no-fade"@.len() != "--no-probe-shadow"@.len());
            assert(renamed("--no-fade"@) == Some(("cross_fade"@, false)));
}

proof fn lemma_toggle_entry_63()
    ensures
        entry_ok(toggle_flag_at(63)),
{
            reveal_strlit("--no-shadow-share");
            reveal_strlit("shadow_share");
            reveal_strlit("--repaired-lighting");
            reveal_strlit("legacy_lighting");
            reveal_strlit("--repaired-water");
            reveal_strlit("legacy_water");
            reveal_strlit("--no-probe-shadow");
            reveal_strlit("bounce_shadow");
            reveal_strlit("--no-fade");
            reveal_strlit("cross_fade");
            assert(toggle_flag_at(63) == ("--no-shadow-share", 54usize, false));
            assert("--no-shadow-share"@[5] != "--no-probe-shadow"@[5]);
            assert(toggle_default_at(54).0 == "shadow_share");
            assert("--no-shadow-share"@.take(5) =~= seq!['-', '-', 'n', 'o', '-']);
            assert(flag_words("--no-shadow-share"@) =~= "shadow_share"@);
}

proof fn lemma_toggle_entry_64()
    ensures
        entry_ok(toggle_flag_at(64)),
{
            reveal_strlit("--no-offscreen-shadows");
            reveal_strlit("offscreen_shadows");
            reveal_strlit("--repaired-lighting");
            reveal_strlit("legacy_lighting");
            reveal_strlit("--repaired-water");
            reveal_strlit("legacy_water");
            reveal_strlit("--no-probe-shadow");
            reveal_strlit("bounce_shadow");
            reveal_strlit("--no-fade");
            reveal_strlit("cross_fade");
            assert(toggle_flag_at(64) == ("--no-offscreen-shadows", 55usize, false));
            assert(toggle_default_at(55).0 == "offscreen_shadows");
            assert("--no-offscreen-shadows"@.take(5) =~= seq!['-', '-', 'n', 'o', '-']);
            assert(flag_words("--no-offscreen-shadows"@) =~= "offscreen_shadows"@);
}

proof fn lemma_toggle_entry_65()
    ensures
        entry_ok(toggle_flag_at(65)),
{
            reveal_strlit("--no-vsync");
            reveal_strlit("vsync");
            reveal_strlit("--repaired-lighting");
            reveal_strlit("legacy_lighting");
            reveal_strlit("--repaired-water");
            reveal_strlit("legacy_water");
            reveal_strlit("--no-probe-shadow");
            reveal_strlit("bounce_shadow");
            reveal_strlit("--no-fade");
            reveal_strlit("cross_fade");
            assert(toggle_flag_at(65) == ("--no-vsync", 56usize, false));
            assert(toggle_default_at(56).0 == "vsync");
            assert("--no-vsync"@.take(5) =~= seq!['-', '-', 'n', 'o', '-']);
            assert(flag_words("--no-vsync"@) =~= "vsync"@);
}

proof fn lemma_toggle_entry_66()
    ensures
        entry_ok(toggle_flag_at(66)),
{
            reveal_strlit("--no-idle-repaint");
            reveal_strlit("idle_repaint");
            reveal_strlit("--repaired-lighting");
            reveal_strlit("legacy_lighting");
            reveal_strlit("--repaired-water");
            reveal_strlit("legacy_water");
            reveal_strlit("--no-probe-shadow");
            reveal_strlit("bounce_shadow");
            reveal_strlit("--no-fade");
            reveal_strlit("cross_fade");
            assert(toggle_flag_at(66) == ("--no-idle-repaint", 57usize, false));
            assert("--no-idle-repaint"@[5] != "--no-probe-shadow"@[5]);
            assert(toggle_default_at(57).0 == "idle_repaint");
            assert("--no-idle-repaint"@.take(5) =~= seq!['-', '-', 'n', 'o', '-']);
            assert(flag_words("--no-idle-repaint"@) =~= "idle_repaint"@);
}

proof fn lemma_toggle_entry_67()
    ensures
        entry_ok(toggle_flag_at(67)),
{
            reveal_strlit("--no-shadows");
            reveal_strlit("shadows");
            reveal_strlit("--repaired-lighting");
            reveal_strlit("legacy_lighting");
            reveal_strlit("--repaired-water");
            reveal_strlit("legacy_water");
            reveal_strlit("--no-probe-shadow");
            reveal_strlit("bounce_shadow");
            reveal_strlit("--no-fade");
            reveal_strlit("cross_fade");
            assert(toggle_flag_at(67) == ("--no-shadows", 58usize, false));
            assert(toggle_default_at(58).0 == "shadows");
            assert("--no-shadows"@.take(5) =~= seq!['-', '-', 'n', 'o', '-']);
            assert(flag_words("--no-shadows"@) =~= "shadows"@);
}

proof fn lemma_toggle_entry_68()
    ensures
        entry_ok(toggle_flag_at(68)),
{
            reveal_strlit("--no-hiz");
            reveal_strlit("hiz");
            reveal_strlit("--repaired-lighting");
            reveal_strlit("legacy_lighting");
            reveal_strlit("--repaired-water");
            reveal_strlit("legacy_water");
            reveal_strlit("--no-probe-shadow");
            reveal_strlit("bounce_shadow");
            reveal_strlit("--no-fade");
            reveal_strlit("cross_fade");
            assert(toggle_flag_at(68) == ("--no-hiz", 59usize, false));
            assert(toggle_default_at(59).0 == "hiz");
            assert("--no-hiz"@.take(5) =~= seq!['-', '-', 'n', 'o', '-']);
            assert(flag_words("--no-hiz"@) =~= "hiz"@);
}

proof fn lemma_toggle_entry_69()
    ensures
        entry_ok(toggle_flag_at(69)),
{
            reveal_strlit("--hud");
            reveal_strlit("hud");
            reveal_strlit("--repaired-lighting");
            reveal_strlit("legacy_lighting");
            reveal_strlit("--repaired-water");
            reveal_strlit("legacy_water");
            reveal_strlit("--no-probe-shadow");
            reveal_strlit("bounce_shadow");
            reveal_strlit("--no-fade");
            reveal_strlit("cross_fade");
            assert(toggle_flag_at(69) == ("--hud", 60usize, true));
            assert(toggle_default_at(60).0 == "hud");
            assert("--hud"@.take(5)[2] != 'n');
            assert(flag_words("--hud"@) =~= "hud"@);
}

proof fn lemma_toggle_entry_70()
    ensures
        entry_ok(toggle_flag_at(70)),
{
            reveal_strlit("--demo-edits");
            reveal_strlit("demo_edits");
            reveal_strlit("--repaired-lighting");
            reveal_strlit("legacy_lighting");
            reveal_strlit("--repaired-water");
            reveal_strlit("legacy_water");
            reveal_strlit("--no-probe-shadow");
            reveal_strlit("bounce_shadow");
            reveal_strlit("--no-fade");
            reveal_strlit("cross_fade");
            assert(toggle_flag_at(70) == ("--demo-edits", 61usize, true));
            assert(toggle_default_at(61).0 == "demo_edits");
            assert("--demo-edits"@.take(5)[2] != 'n');
            assert(flag_words("--demo-edits"@) =~= "demo_edits"@);
}

proof fn lemma_toggle_entry_71()
    ensures
        entry_ok(toggle_flag_at(71)),
{
            reveal_strlit("--demo-glass");
            reveal_strlit("demo_glass");
            reveal_strlit("--repaired-lighting");
            reveal_strlit("legacy_lighting");
            reveal_strlit("--repaired-water");
            reveal_strlit("legacy_water");
            reveal_strlit("--no-probe-shadow");
            reveal_strlit("bounce_shadow");
            reveal_strlit("--no-fade");
            reveal_strlit("cross_fade");
            assert(toggle_flag_at(71) == ("--demo-glass", 62usize, true));
            assert(toggle_default_at(62).0 == "demo_glass");
            assert("--demo-glass"@.take(5)[2] != 'n');
            assert(flag_words("--demo-glass"@) =~= "demo_glass"@);
}

proof fn lemma_toggle_entry_72()
    ensures
        entry_ok(toggle_flag_at(72)),
{
            reveal_strlit("--demo-lamps");
            reveal_strlit("demo_lamps");
            reveal_strlit("--repaired-lighting");
            reveal_strlit("legacy_lighting");
            reveal_strlit("--repaired-water");
            reveal_strlit("legacy_water");
            reveal_strlit("--no-probe-shadow");
            reveal_strlit("bounce_shadow");
            reveal_strlit("--no-fade");
            reveal_strlit("cross_fade");
            assert(toggle_flag_at(72) == ("--demo-lamps", 63usize, true));
            assert(toggle_default_at(63).0 == "demo_lamps");
            assert("--demo-lamps"@.take(5)[2] != 'n');
            assert(flag_words("--demo-lamps"@) =~= "demo_lamps"@);
}

proof fn lemma_toggle_entry_73()
    ensures
        entry_ok(toggle_flag_at(73)),
{
            reveal_strlit("--no-ao");
            reveal_strlit("ao");
            reveal_strlit("--repaired-lighting");
            reveal_strlit("legacy_lighting");
            reveal_strlit("--repaired-water");
            reveal_strlit("legacy_water");
            reveal_strlit("--no-probe-shadow");
            reveal_strlit("bounce_shadow");
            reveal_strlit("--no-fade");
            reveal_strlit("cross_fade");
            assert(toggle_flag_at(73) == ("--no-ao", 64usize, false));
            assert(toggle_default_at(64).0 == "ao");
            assert("--no-ao"@.take(5) =~= seq!['-', '-', 'n', 'o', '-']);
            assert(flag_words("--no-ao"@) =~= "ao"@);
}

proof fn lemma_toggle_entry_74()
    ensures
        entry_ok(toggle_flag_at(74)),
{
            reveal_strlit("--no-physics");
            reveal_strlit("physics");
            reveal_strlit("--repaired-lighting");
            reveal_strlit("legacy_lighting");
            reveal_strlit("--repaired-water");
            reveal_strlit("legacy_water");
            reveal_strlit("--no-probe-shadow");
            reveal_strlit("bounce_shadow");
            reveal_strlit("--no-fade");
            reveal_strlit("cross_fade");
            assert(toggle_flag_at(74) == ("--no-physics", 65usize, false));
            assert(toggle_default_at(65).0 == "physics");
            assert("--no-physics"@.take(5) =~= seq!['-', '-', 'n', 'o', '-']);
            assert(flag_words("--no-physics"@) =~= "physics"@);
}

/// A switch starts off exactly when some flag turns it on: every switch a flag turns on
/// starts off, and every switch that starts off has a flag that turns it on -- so a `--no-`
/// flag only ever turns off what starts on, unless the switch can be turned both ways.
pub proof fn law_switches_start_off_only_when_a_flag_turns_them_on()
    ensures
        forall|k: usize| #![trigger toggle_flag_at(k)] k < TOGGLE_FLAGS && toggle_flag_at(k).2 ==> !toggle_default_at(toggle_flag_at(k).1).1,
        forall|k: usize| #![trigger toggle_flag_at(k)]
            k < TOGGLE_FLAGS && !toggle_default_at(toggle_flag_at(k).1).1 ==> exists|w: usize| #![trigger toggle_flag_at(w)]
                w < TOGGLE_FLAGS && toggle_flag_at(w).2 && toggle_flag_at(w).1 == toggle_flag_at(k).1,
{
    assert forall|k: usize| #![trigger toggle_flag_at(k)] k < TOGGLE_FLAGS implies (toggle_flag_at(k).2 ==> !toggle_default_at(
        toggle_flag_at(k).1,
    ).1) && (!toggle_default_at(toggle_flag_at(k).1).1 ==> exists|w: usize| #![trigger toggle_flag_at(w)]
        w < TOGGLE_FLAGS && toggle_flag_at(w).2 && toggle_flag_at(w).1 == toggle_flag_at(k).1) by {
        if k == 0 {
        } else if k == 1 {
        } else if k == 2 {
        } else if k == 3 {
        } else if k == 4 {
        } else if k == 5 { assert(toggle_flag_at(5).2 && toggle_flag_at(5).1 == 5); 
        } else if k == 6 { assert(toggle_flag_at(6).2 && toggle_flag_at(6).1 == 6); 
        } else if k == 7 { assert(toggle_flag_at(7).2 && toggle_flag_at(7).1 == 7); 
        } else if k == 8 { assert(toggle_flag_at(8).2 && toggle_flag_at(8).1 == 8); 
        } else if k == 9 { assert(toggle_flag_at(9).2 && toggle_flag_at(9).1 == 9); 
        } else if k == 10 { assert(toggle_flag_at(10).2 && toggle_flag_at(10).1 == 10); 
        } else if k == 11 { assert(toggle_flag_at(11).2 && toggle_flag_at(11).1 == 11); 
        } else if k == 12 { assert(toggle_flag_at(12).2 && toggle_flag_at(12).1 == 12); 
        } else if k == 13 { assert(toggle_flag_at(13).2 && toggle_flag_at(13).1 == 13); 
        } else if k == 14 { assert(toggle_flag_at(14).2 && toggle_flag_at(14).1 == 14); 
        } else if k == 15 { assert(toggle_flag_at(15).2 && toggle_flag_at(15).1 == 15); 
        } else if k == 16 { assert(toggle_flag_at(15).2 && toggle_flag_at(15).1 == 15); 
        } else if k == 17 { assert(toggle_flag_at(14).2 && toggle_flag_at(14).1 == 14); 
        } else if k == 18 { assert(toggle_flag_at(6).2 && toggle_flag_at(6).1 == 6); 
        } else if k == 19 { assert(toggle_flag_at(10).2 && toggle_flag_at(10).1 == 10); 
        } else if k == 20 { assert(toggle_flag_at(20).2 && toggle_flag_at(20).1 == 16); 
        } else if k == 21 { assert(toggle_flag_at(20).2 && toggle_flag_at(20).1 == 16); 
        } else if k == 22 { assert(toggle_flag_at(22).2 && toggle_flag_at(22).1 == 17); 
        } else if k == 23 { assert(toggle_flag_at(22).2 && toggle_flag_at(22).1 == 17); 
        } else if k == 24 { assert(toggle_flag_at(24).2 && toggle_flag_at(24).1 == 18); 
        } else if k == 25 { assert(toggle_flag_at(24).2 && toggle_flag_at(24).1 == 18); 
        } else if k == 26 { assert(toggle_flag_at(26).2 && toggle_flag_at(26).1 == 19); 
        } else if k == 27 { assert(toggle_flag_at(26).2 && toggle_flag_at(26).1 == 19); 
        } else if k == 28 { assert(toggle_flag_at(28).2 && toggle_flag_at(28).1 == 20); 
        } else if k == 29 { assert(toggle_flag_at(28).2 && toggle_flag_at(28).1 == 20); 
        } else if k == 30 { assert(toggle_flag_at(30).2 && toggle_flag_at(30).1 == 21); 
        } else if k == 31 { assert(toggle_flag_at(31).2 && toggle_flag_at(31).1 == 22); 
        } else if k == 32 {
        } else if k == 33 {
        } else if k == 34 {
        } else if k == 35 {
        } else if k == 36 {
        } else if k == 37 {
        } else if k == 38 {
        } else if k == 39 {
        } else if k == 40 {
        } else if k == 41 {
        } else if k == 42 {
        } else if k == 43 {
        } else if k == 44 {
        } else if k == 45 {
        } else if k == 46 {
        } else if k == 47 {
        } else if k == 48 {
        } else if k == 49 {
        } else if k == 50 { assert(toggle_flag_at(50).2 && toggle_flag_at(50).1 == 41); 
        } else if k == 51 {
        } else if k == 52 {
        } else if k == 53 {
        } else if k == 54 {
        } else if k == 55 { assert(toggle_flag_at(55).2 && toggle_flag_at(55).1 == 46); 
        } else if k == 56 { assert(toggle_flag_at(56).2 && toggle_flag_at(56).1 == 47); 
        } else if k == 57 {
        } else if k == 58 {
        } else if k == 59 {
        } else if k == 60 {
        } else if k == 61 {
        } else if k == 62 {
        } else if k == 63 {
        } else if k == 64 {
        } else if k == 65 {
        } else if k == 66 {
        } else if k == 67 {
        } else if k == 68 {
        } else if k == 69 { assert(toggle_flag_at(69).2 && toggle_flag_at(69).1 == 60); 
        } else if k == 70 { assert(toggle_flag_at(70).2 && toggle_flag_at(70).1 == 61); 
        } else if k == 71 { assert(toggle_flag_at(71).2 && toggle_flag_at(71).1 == 62); 
        } else if k == 72 { assert(toggle_flag_at(72).2 && toggle_flag_at(72).1 == 63); 
        } else if k == 73 {
        } else if k == 74 {
        }
    }
}


/// A flag in the table sets, of all the switches, exactly the one its own name names, to the
/// value its name says, and leaves every other switch as it was.
pub proof fn law_a_flag_sets_the_switch_it_names(t: Seq<bool>, f: Seq<char>)
    requires
        t.len() == TOGGLES,
        first_flag(toggle_flags(), f, 0) is Some,
    ensures
        exists|j: int|
            0 <= j < TOGGLES && toggle_defaults()[j].0@ == toggle_target(f).0 && #[trigger] toggle_step(t, f)
                == t.update(j, toggle_target(f).1),
{
    law_toggle_flags_set_their_own_switch();
    lemma_first_flag_names(toggle_flags(), f, 0);
    let k = first_flag(toggle_flags(), f, 0)->0;
    assert(entry_ok(toggle_flags()[k]));
    let j = toggle_flags()[k].1 as int;
    assert(toggle_step(t, f) == t.update(j, toggle_target(f).1));
}

/// The flag a lookup finds is the one looked for.
proof fn lemma_first_flag_names(table: Seq<(&'static str, usize, bool)>, f: Seq<char>, from: int)
    requires
        first_flag(table, f, from) is Some,
    ensures
        0 <= first_flag(table, f, from)->0 < table.len(),
        table[first_flag(table, f, from)->0].0@ == f,
    decreases table.len() - from,
{
    if from >= 0 && from < table.len() && table[from].0@ != f {
        lemma_first_flag_names(table, f, from + 1);
    }
}
} // verus!
