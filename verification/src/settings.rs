//! The colour grade a player can pick, the record of what applying new settings has to redo, and the
//! preferences file: its lines, keys and values, read and written.

use crate::text::{
    is_ws, lemma_first_index_after, lemma_float_text_chars, lemma_split_extend, lemma_split_push_sep,
    lemma_trim_plain, plain_char, lemma_float_text_nonempty,
    chars_of, eq_text, find_char, first_index, float_text, range_views, same_text, split_on,
    split_ranges, trim, trim_range,
};
use vstd::prelude::*;

verus! {

#[derive(Clone, Copy, Debug, PartialEq, Eq)]
pub enum Grade {
    Natural,
    Warm,
    Cine,
}

impl Grade {
    pub open spec fn index_spec(self) -> u32 {
        match self {
            Grade::Natural => 0,
            Grade::Warm => 1,
            Grade::Cine => 2,
        }
    }

    pub fn index(self) -> (i: u32)
        ensures
            i == self.index_spec(),
    {
        match self {
            Grade::Natural => 0,
            Grade::Warm => 1,
            Grade::Cine => 2,
        }
    }

    pub fn label(self) -> (s: &'static str)
        ensures
            s@ == match self {
                Grade::Natural => "Natural"@,
                Grade::Warm => "Warm"@,
                Grade::Cine => "Cinema"@,
            },
    {
        match self {
            Grade::Natural => "Natural",
            Grade::Warm => "Warm",
            Grade::Cine => "Cinema",
        }
    }

    /// The grade `d` places on from this one, round the three.
    pub open spec fn step_spec(self, d: int) -> Grade {
        let i = (self.index_spec() + d) % 3;
        if i == 0 {
            Grade::Natural
        } else if i == 1 {
            Grade::Warm
        } else {
            Grade::Cine
        }
    }

    pub fn step(self, d: i32) -> (g: Grade)
        requires
            self.index_spec() + d <= i32::MAX,
        ensures
            g == self.step_spec(d as int),
    {
        let v = self.index() as i32 + d;
        match v.checked_rem_euclid(3) {
            Some(0) => Grade::Natural,
            Some(1) => Grade::Warm,
            _ => Grade::Cine,
        }
    }

    /// The grade with a stored index: 0, 1 or 2.
    pub open spec fn from_index_spec(i: u32) -> Option<Grade> {
        if i == 0 {
            Some(Grade::Natural)
        } else if i == 1 {
            Some(Grade::Warm)
        } else if i == 2 {
            Some(Grade::Cine)
        } else {
            None
        }
    }
}

/// A grade survives being stored as its index and read back.
pub proof fn law_grade_index_roundtrip(g: Grade)
    ensures
        Grade::from_index_spec(g.index_spec()) == Some(g),
{
}

/// Stepping a grade forward and back again leaves it as it was.
pub proof fn law_grade_step_back(g: Grade, d: int)
    ensures
        g.step_spec(d).step_spec(-d) == g,
{
    let i = g.index_spec() as int;
    let j = (i + d) % 3;
    assert(g.step_spec(d).index_spec() == j);
    assert((j - d) % 3 == i) by {
        vstd::arithmetic::div_mod::lemma_fundamental_div_mod(i + d, 3);
        vstd::arithmetic::div_mod::lemma_fundamental_div_mod_converse(
            j - d,
            3,
            -((i + d) / 3),
            i,
        );
    }
}

/// What applying a new set of preferences has to redo.
#[derive(Clone, Copy, Debug, Default, PartialEq, Eq)]
pub struct ApplyPlan {
    pub resize: bool,
    pub surface: bool,
    pub presentation: bool,
    pub history: bool,
    pub experiments: bool,
}

// ------------------------------------------------------------------ the preferences file

/// The keys a preferences file may set, besides `version`.
#[derive(Clone, Copy, Debug, PartialEq, Eq, Structural)]
pub enum PrefKey {
    Scale,
    Fov,
    Vsync,
    Taa,
    Shadows,
    Ao,
    Reflections,
    Refraction,
    Aces,
    Grade,
    GradeStrength,
    FogDensity,
    Ambient,
    IsolateGlass,
    ShadowPass,
    CompactShadeHit,
    GlassReflect,
    WaterLook,
    WindSway,
    SoftShadows,
}

/// The key spelt `k`, if there is one.
pub open spec fn key_of(k: Seq<char>) -> Option<PrefKey> {
    if k == "scale"@ {
        Some(PrefKey::Scale)
    } else if k == "fov"@ {
        Some(PrefKey::Fov)
    } else if k == "vsync"@ {
        Some(PrefKey::Vsync)
    } else if k == "taa"@ {
        Some(PrefKey::Taa)
    } else if k == "shadows"@ {
        Some(PrefKey::Shadows)
    } else if k == "ao"@ {
        Some(PrefKey::Ao)
    } else if k == "reflections"@ {
        Some(PrefKey::Reflections)
    } else if k == "refraction"@ {
        Some(PrefKey::Refraction)
    } else if k == "aces"@ {
        Some(PrefKey::Aces)
    } else if k == "grade"@ {
        Some(PrefKey::Grade)
    } else if k == "grade_strength"@ {
        Some(PrefKey::GradeStrength)
    } else if k == "fog_density"@ {
        Some(PrefKey::FogDensity)
    } else if k == "ambient"@ {
        Some(PrefKey::Ambient)
    } else if k == "isolate_glass"@ {
        Some(PrefKey::IsolateGlass)
    } else if k == "shadow_pass"@ {
        Some(PrefKey::ShadowPass)
    } else if k == "compact_shade_hit"@ {
        Some(PrefKey::CompactShadeHit)
    } else if k == "glass_reflect"@ {
        Some(PrefKey::GlassReflect)
    } else if k == "water_look"@ {
        Some(PrefKey::WaterLook)
    } else if k == "wind_sway"@ {
        Some(PrefKey::WindSway)
    } else if k == "soft_shadows"@ {
        Some(PrefKey::SoftShadows)
    } else {
        None
    }
}

impl PrefKey {
    /// Keys whose value is a real number.
    pub open spec fn numeric(self) -> bool {
        self == PrefKey::Scale || self == PrefKey::Fov || self == PrefKey::GradeStrength
            || self == PrefKey::FogDensity || self == PrefKey::Ambient
    }

    /// Keys that a version-1 file may not hold.
    pub open spec fn experimental(self) -> bool {
        self == PrefKey::CompactShadeHit || self == PrefKey::GlassReflect || self == PrefKey::WaterLook
            || self == PrefKey::WindSway || self == PrefKey::SoftShadows
    }

    /// Keys that only a version-3 file may hold.
    pub open spec fn architecture(self) -> bool {
        self == PrefKey::IsolateGlass || self == PrefKey::ShadowPass
    }

    pub fn is_numeric(self) -> (b: bool)
        ensures
            b == self.numeric(),
    {
        match self {
            PrefKey::Scale | PrefKey::Fov | PrefKey::GradeStrength | PrefKey::FogDensity
            | PrefKey::Ambient => true,
            _ => false,
        }
    }

    pub fn is_experimental(self) -> (b: bool)
        ensures
            b == self.experimental(),
    {
        match self {
            PrefKey::CompactShadeHit | PrefKey::GlassReflect | PrefKey::WaterLook
            | PrefKey::WindSway | PrefKey::SoftShadows => true,
            _ => false,
        }
    }

    pub fn is_architecture(self) -> (b: bool)
        ensures
            b == self.architecture(),
    {
        match self {
            PrefKey::IsolateGlass | PrefKey::ShadowPass => true,
            _ => false,
        }
    }
}

/// A value read for a key: a switch, a grade, or the text of a number.
#[derive(Clone, Debug, PartialEq)]
pub enum PrefValue {
    Flag(bool),
    Grade(Grade),
    Number(String),
}

/// What a value is, with a number as its text.
pub enum PrefSetting {
    Flag(bool),
    Grade(Grade),
    Number(Seq<char>),
}

impl View for PrefValue {
    type V = PrefSetting;

    open spec fn view(&self) -> PrefSetting {
        match self {
            PrefValue::Flag(b) => PrefSetting::Flag(*b),
            PrefValue::Grade(g) => PrefSetting::Grade(*g),
            PrefValue::Number(t) => PrefSetting::Number(t@),
        }
    }
}

/// One `key=value` line that was read.
#[derive(Clone, Debug, PartialEq)]
pub struct PrefEntry {
    pub key: PrefKey,
    pub value: PrefValue,
}

impl View for PrefEntry {
    type V = (PrefKey, PrefSetting);

    open spec fn view(&self) -> (PrefKey, PrefSetting) {
        (self.key, self.value@)
    }
}

/// Why a preferences file was refused.
#[derive(Clone, Debug, PartialEq, Eq)]
pub enum PrefError {
    NoEquals,
    Duplicate(String),
    UnsupportedVersion,
    InvalidValue(String),
    UnknownGrade,
    UnknownKey(String),
    MissingVersion,
    ExperimentalNeedsV2,
    ArchitectureNeedsV3,
}

/// Why a preferences file is refused, with the text that the reason names.
pub enum PrefFault {
    NoEquals,
    Duplicate(Seq<char>),
    UnsupportedVersion,
    InvalidValue(Seq<char>),
    UnknownGrade,
    UnknownKey(Seq<char>),
    MissingVersion,
    ExperimentalNeedsV2,
    ArchitectureNeedsV3,
}

impl View for PrefError {
    type V = PrefFault;

    open spec fn view(&self) -> PrefFault {
        match self {
            PrefError::NoEquals => PrefFault::NoEquals,
            PrefError::Duplicate(k) => PrefFault::Duplicate(k@),
            PrefError::UnsupportedVersion => PrefFault::UnsupportedVersion,
            PrefError::InvalidValue(v) => PrefFault::InvalidValue(v@),
            PrefError::UnknownGrade => PrefFault::UnknownGrade,
            PrefError::UnknownKey(k) => PrefFault::UnknownKey(k@),
            PrefError::MissingVersion => PrefFault::MissingVersion,
            PrefError::ExperimentalNeedsV2 => PrefFault::ExperimentalNeedsV2,
            PrefError::ArchitectureNeedsV3 => PrefFault::ArchitectureNeedsV3,
        }
    }
}

/// What the value text `v` gives `key`: a grade is `0`, `1` or `2`; a switch `true` or
/// `false`; a number what `f32` reads.
pub open spec fn value_of(key: PrefKey, v: Seq<char>) -> Result<PrefSetting, PrefFault> {
    if key == PrefKey::Grade {
        if v == "0"@ {
            Ok(PrefSetting::Grade(Grade::Natural))
        } else if v == "1"@ {
            Ok(PrefSetting::Grade(Grade::Warm))
        } else if v == "2"@ {
            Ok(PrefSetting::Grade(Grade::Cine))
        } else {
            Err(PrefFault::UnknownGrade)
        }
    } else if key.numeric() {
        if float_text(v) {
            Ok(PrefSetting::Number(v))
        } else {
            Err(PrefFault::InvalidValue(v))
        }
    } else if v == "true"@ {
        Ok(PrefSetting::Flag(true))
    } else if v == "false"@ {
        Ok(PrefSetting::Flag(false))
    } else {
        Err(PrefFault::InvalidValue(v))
    }
}

/// The key spelt by the characters `lo..hi`.
pub fn key_at(c: &Vec<char>, lo: usize, hi: usize) -> (k: Option<PrefKey>)
    requires
        lo <= hi <= c@.len(),
    ensures
        k == key_of(c@.subrange(lo as int, hi as int)),
{
    if eq_text(c, lo, hi, "scale") {
        Some(PrefKey::Scale)
    } else if eq_text(c, lo, hi, "fov") {
        Some(PrefKey::Fov)
    } else if eq_text(c, lo, hi, "vsync") {
        Some(PrefKey::Vsync)
    } else if eq_text(c, lo, hi, "taa") {
        Some(PrefKey::Taa)
    } else if eq_text(c, lo, hi, "shadows") {
        Some(PrefKey::Shadows)
    } else if eq_text(c, lo, hi, "ao") {
        Some(PrefKey::Ao)
    } else if eq_text(c, lo, hi, "reflections") {
        Some(PrefKey::Reflections)
    } else if eq_text(c, lo, hi, "refraction") {
        Some(PrefKey::Refraction)
    } else if eq_text(c, lo, hi, "aces") {
        Some(PrefKey::Aces)
    } else if eq_text(c, lo, hi, "grade") {
        Some(PrefKey::Grade)
    } else if eq_text(c, lo, hi, "grade_strength") {
        Some(PrefKey::GradeStrength)
    } else if eq_text(c, lo, hi, "fog_density") {
        Some(PrefKey::FogDensity)
    } else if eq_text(c, lo, hi, "ambient") {
        Some(PrefKey::Ambient)
    } else if eq_text(c, lo, hi, "isolate_glass") {
        Some(PrefKey::IsolateGlass)
    } else if eq_text(c, lo, hi, "shadow_pass") {
        Some(PrefKey::ShadowPass)
    } else if eq_text(c, lo, hi, "compact_shade_hit") {
        Some(PrefKey::CompactShadeHit)
    } else if eq_text(c, lo, hi, "glass_reflect") {
        Some(PrefKey::GlassReflect)
    } else if eq_text(c, lo, hi, "water_look") {
        Some(PrefKey::WaterLook)
    } else if eq_text(c, lo, hi, "wind_sway") {
        Some(PrefKey::WindSway)
    } else if eq_text(c, lo, hi, "soft_shadows") {
        Some(PrefKey::SoftShadows)
    } else {
        None
    }
}

/// The value that the characters `lo..hi` of `text` give `key`, or why they give none.
pub fn value_at(text: &str, c: &Vec<char>, key: PrefKey, lo: usize, hi: usize) -> (r: Result<
    PrefValue,
    PrefError,
>)
    requires
        c@ == text@,
        lo <= hi <= c@.len(),
    ensures
        match r {
            Ok(v) => value_of(key, c@.subrange(lo as int, hi as int)) == Ok::<PrefSetting, PrefFault>(v@),
            Err(e) => value_of(key, c@.subrange(lo as int, hi as int)) == Err::<PrefSetting, PrefFault>(e@),
        },
{
    let ghost v = c@.subrange(lo as int, hi as int);
    if key == PrefKey::Grade {
        if eq_text(c, lo, hi, "0") {
            Ok(PrefValue::Grade(Grade::Natural))
        } else if eq_text(c, lo, hi, "1") {
            Ok(PrefValue::Grade(Grade::Warm))
        } else if eq_text(c, lo, hi, "2") {
            Ok(PrefValue::Grade(Grade::Cine))
        } else {
            Err(PrefError::UnknownGrade)
        }
    } else if key.is_numeric() {
        let t = text.substring_char(lo, hi).to_owned();
        if crate::text::is_float_text(c, lo, hi) {
            Ok(PrefValue::Number(t))
        } else {
            Err(PrefError::InvalidValue(t))
        }
    } else if eq_text(c, lo, hi, "true") {
        Ok(PrefValue::Flag(true))
    } else if eq_text(c, lo, hi, "false") {
        Ok(PrefValue::Flag(false))
    } else {
        Err(PrefError::InvalidValue(text.substring_char(lo, hi).to_owned()))
    }
}

/// What the lines read so far have gathered: the entries in order, every key met (`version`
/// too), and the version (0 while none was given).
pub struct PrefScan {
    pub entries: Seq<(PrefKey, PrefSetting)>,
    pub keys: Seq<Seq<char>>,
    pub version: u32,
}

/// The key of a `key=value` line: what comes before its first `=`, trimmed.
pub open spec fn line_key(line: Seq<char>) -> Seq<char> {
    trim(line.take(first_index(line, '=')))
}

/// The value of a `key=value` line: what comes after its first `=`, trimmed.
pub open spec fn line_value(line: Seq<char>) -> Seq<char> {
    trim(line.skip(first_index(line, '=') + 1))
}

/// Reading one line on top of `st`. A blank line or one that starts with `#` is skipped; any
/// other needs an `=`, a key not met before, and then `version` with `1`, `2` or `3`, or a
/// known key with a value it accepts.
pub open spec fn scan_line(st: PrefScan, raw: Seq<char>) -> Result<PrefScan, PrefFault> {
    let line = trim(raw);
    if line.len() == 0 || line[0] == '#' {
        Ok(st)
    } else if first_index(line, '=') == line.len() {
        Err(PrefFault::NoEquals)
    } else {
        let k = line_key(line);
        let v = line_value(line);
        if st.keys.contains(k) {
            Err(PrefFault::Duplicate(k))
        } else if k == "version"@ {
            if v == "1"@ {
                Ok(PrefScan { entries: st.entries, keys: st.keys.push(k), version: 1 })
            } else if v == "2"@ {
                Ok(PrefScan { entries: st.entries, keys: st.keys.push(k), version: 2 })
            } else if v == "3"@ {
                Ok(PrefScan { entries: st.entries, keys: st.keys.push(k), version: 3 })
            } else {
                Err(PrefFault::UnsupportedVersion)
            }
        } else {
            match key_of(k) {
                None => Err(PrefFault::UnknownKey(k)),
                Some(key) => match value_of(key, v) {
                    Err(f) => Err(f),
                    Ok(val) => Ok(
                        PrefScan {
                            entries: st.entries.push((key, val)),
                            keys: st.keys.push(k),
                            version: st.version,
                        },
                    ),
                },
            }
        }
    }
}

/// Reading `lines` in order, stopping at the first that is refused.
pub open spec fn scan_lines(lines: Seq<Seq<char>>) -> Result<PrefScan, PrefFault>
    decreases lines.len(),
{
    if lines.len() == 0 {
        Ok(PrefScan { entries: Seq::empty(), keys: Seq::empty(), version: 0 })
    } else {
        match scan_lines(lines.drop_last()) {
            Err(f) => Err(f),
            Ok(st) => scan_line(st, lines.last()),
        }
    }
}

/// Whether an entry of `entries` sets an experimental key.
pub open spec fn sets_experimental(entries: Seq<(PrefKey, PrefSetting)>) -> bool {
    exists|i: int| 0 <= i < entries.len() && (#[trigger] entries[i]).0.experimental()
}

/// Whether an entry of `entries` sets an architecture key.
pub open spec fn sets_architecture(entries: Seq<(PrefKey, PrefSetting)>) -> bool {
    exists|i: int| 0 <= i < entries.len() && (#[trigger] entries[i]).0.architecture()
}

/// What a preferences file gives: its entries, or why it is refused. The lines are read in
/// order; then the file needs a version, a version-1 file may set no experimental key, and a
/// file before version 3 no architecture key.
pub open spec fn prefs_outcome(text: Seq<char>) -> Result<Seq<(PrefKey, PrefSetting)>, PrefFault> {
    match scan_lines(split_on(text, '\n')) {
        Err(f) => Err(f),
        Ok(st) => if st.version == 0 {
            Err(PrefFault::MissingVersion)
        } else if st.version == 1 && sets_experimental(st.entries) {
            Err(PrefFault::ExperimentalNeedsV2)
        } else if st.version < 3 && sets_architecture(st.entries) {
            Err(PrefFault::ArchitectureNeedsV3)
        } else {
            Ok(st.entries)
        },
    }
}

pub open spec fn entry_views(s: Seq<PrefEntry>) -> Seq<(PrefKey, PrefSetting)> {
    s.map_values(|e: PrefEntry| e@)
}

pub open spec fn ranges_within(ranges: Seq<(usize, usize)>, n: nat) -> bool {
    forall|k: int| 0 <= k < ranges.len() ==> (#[trigger] ranges[k]).0 <= ranges[k].1 <= n
}

/// Whether the characters `lo..hi` spell a key already met.
fn seen_key(c: &Vec<char>, keys: &Vec<(usize, usize)>, lo: usize, hi: usize) -> (b: bool)
    requires
        lo <= hi <= c@.len(),
        ranges_within(keys@, c@.len()),
    ensures
        b == range_views(c@, keys@).contains(c@.subrange(lo as int, hi as int)),
{
    let ghost ks = range_views(c@, keys@);
    let ghost k = c@.subrange(lo as int, hi as int);
    let mut i: usize = 0;
    while i < keys.len()
        invariant
            i <= keys@.len(),
            lo <= hi <= c@.len(),
            ranges_within(keys@, c@.len()),
            ks == range_views(c@, keys@),
            k == c@.subrange(lo as int, hi as int),
            forall|j: int| 0 <= j < i ==> ks[j] != k,
        decreases keys@.len() - i,
    {
        let (a, b) = keys[i];
        assert(keys@[i as int].0 <= keys@[i as int].1 <= c@.len());
        if same_text(c, a, b, lo, hi) {
            assert(ks[i as int] == k);
            return true;
        }
        i += 1;
    }
    false
}

/// Once some first lines are refused, the whole is refused for the same reason.
proof fn lemma_refusal_sticks(lines: Seq<Seq<char>>, n: int)
    requires
        0 <= n <= lines.len(),
        scan_lines(lines.take(n)) is Err,
    ensures
        scan_lines(lines) == scan_lines(lines.take(n)),
    decreases lines.len() - n,
{
    if n < lines.len() {
        assert(lines.take(n + 1).drop_last() =~= lines.take(n));
        lemma_refusal_sticks(lines, n + 1);
    } else {
        assert(lines.take(n) =~= lines);
    }
}

pub open spec fn scan_of(c: Seq<char>, entries: Seq<PrefEntry>, keys: Seq<(usize, usize)>, version: u32) -> PrefScan {
    PrefScan { entries: entry_views(entries), keys: range_views(c, keys), version }
}

/// Read the line `lo..hi` of `text` on top of what was gathered.
#[verifier::rlimit(30)]
fn scan_one(
    text: &str,
    c: &Vec<char>,
    lo: usize,
    hi: usize,
    entries: &mut Vec<PrefEntry>,
    keys: &mut Vec<(usize, usize)>,
    version: &mut u32,
) -> (r: Result<(), PrefError>)
    requires
        c@ == text@,
        lo <= hi <= c@.len(),
        ranges_within(old(keys)@, c@.len()),
    ensures
        ranges_within(final(keys)@, c@.len()),
        match r {
            Ok(()) => scan_line(scan_of(c@, old(entries)@, old(keys)@, *old(version)), c@.subrange(lo as int, hi as int))
                == Ok::<PrefScan, PrefFault>(scan_of(c@, final(entries)@, final(keys)@, *final(version))),
            Err(e) => scan_line(scan_of(c@, old(entries)@, old(keys)@, *old(version)), c@.subrange(lo as int, hi as int))
                == Err::<PrefScan, PrefFault>(e@),
        },
{
    let ghost st = scan_of(c@, entries@, keys@, *version);
    let ghost raw = c@.subrange(lo as int, hi as int);
    let (a, b) = trim_range(c, lo, hi);
    let ghost line = c@.subrange(a as int, b as int);
    if a == b || c[a] == '#' {
        return Ok(());
    }
    let p = find_char(c, a, b, '=');
    if p == b - a {
        return Err(PrefError::NoEquals);
    }
    assert(c@.subrange(a as int, (a + p) as int) =~= line.take(p as int));
    assert(c@.subrange((a + p + 1) as int, b as int) =~= line.skip(p + 1));
    let (ka, kb) = trim_range(c, a, a + p);
    let (va, vb) = trim_range(c, a + p + 1, b);
    let ghost k = c@.subrange(ka as int, kb as int);
    let ghost v = c@.subrange(va as int, vb as int);
    assert(k == line_key(line));
    assert(v == line_value(line));
    if seen_key(c, keys, ka, kb) {
        return Err(PrefError::Duplicate(text.substring_char(ka, kb).to_owned()));
    }
    let ghost k0 = keys@;
    if eq_text(c, ka, kb, "version") {
        let n: u32 = if eq_text(c, va, vb, "1") {
            1
        } else if eq_text(c, va, vb, "2") {
            2
        } else if eq_text(c, va, vb, "3") {
            3
        } else {
            return Err(PrefError::UnsupportedVersion);
        };
        keys.push((ka, kb));
        *version = n;
        assert(range_views(c@, keys@) =~= range_views(c@, k0).push(k));
        assert(ranges_within(keys@, c@.len())) by {
            assert forall|j: int| 0 <= j < keys@.len() implies (#[trigger] keys@[j]).0 <= keys@[j].1 <= c@.len() by {
                if j < k0.len() {
                    assert(keys@[j] == k0[j]);
                }
            }
        }
        return Ok(());
    }
    match key_at(c, ka, kb) {
        None => Err(PrefError::UnknownKey(text.substring_char(ka, kb).to_owned())),
        Some(key) => match value_at(text, c, key, va, vb) {
            Err(e) => Err(e),
            Ok(val) => {
                let ghost e0 = entries@;
                let ghost vv = val@;
                entries.push(PrefEntry { key, value: val });
                keys.push((ka, kb));
                assert(range_views(c@, keys@) =~= range_views(c@, k0).push(k));
                assert(entry_views(entries@) =~= entry_views(e0).push((key, vv)));
                assert(ranges_within(keys@, c@.len())) by {
                    assert forall|j: int| 0 <= j < keys@.len() implies (#[trigger] keys@[j]).0 <= keys@[j].1 <= c@.len() by {
                        if j < k0.len() {
                            assert(keys@[j] == k0[j]);
                        }
                    }
                }
                Ok(())
            },
        },
    }
}

/// Read a preferences file: `key=value` lines, blank lines and `#` comments, with white space
/// round each part ignored. Gives the entries in file order, or the first reason to refuse it.
#[verifier::rlimit(30)]
pub fn scan_preferences(text: &str) -> (r: Result<Vec<PrefEntry>, PrefError>)
    ensures
        match r {
            Ok(v) => prefs_outcome(text@) == Ok::<Seq<(PrefKey, PrefSetting)>, PrefFault>(entry_views(v@)),
            Err(e) => prefs_outcome(text@) == Err::<Seq<(PrefKey, PrefSetting)>, PrefFault>(e@),
        },
{
    let c = chars_of(text);
    let lines = split_ranges(&c, '\n');
    let ghost all = split_on(c@, '\n');
    let mut entries: Vec<PrefEntry> = Vec::new();
    let mut keys: Vec<(usize, usize)> = Vec::new();
    let mut version: u32 = 0;
    let mut experimental = false;
    let mut architecture = false;
    let mut i: usize = 0;
    assert(all.take(0) =~= Seq::<Seq<char>>::empty());
    assert(entry_views(entries@) =~= Seq::<(PrefKey, PrefSetting)>::empty());
    assert(range_views(c@, keys@) =~= Seq::<Seq<char>>::empty());
    while i < lines.len()
        invariant
            c@ == text@,
            i <= lines@.len(),
            range_views(c@, lines@) == all,
            all == split_on(c@, '\n'),
            forall|k: int| 0 <= k < lines@.len() ==> (#[trigger] lines@[k]).0 <= lines@[k].1 <= c@.len(),
            ranges_within(keys@, c@.len()),
            scan_lines(all.take(i as int)) == Ok::<PrefScan, PrefFault>(scan_of(c@, entries@, keys@, version)),
            experimental == sets_experimental(entry_views(entries@)),
            architecture == sets_architecture(entry_views(entries@)),
        decreases lines@.len() - i,
    {
        let (lo, hi) = lines[i];
        assert(lines@[i as int].0 <= lines@[i as int].1 <= c@.len());
        assert(all.take(i + 1).drop_last() =~= all.take(i as int));
        assert(all.take(i + 1).last() == c@.subrange(lo as int, hi as int));
        let ghost e0 = entries@;
        let n0 = entries.len();
        match scan_one(text, &c, lo, hi, &mut entries, &mut keys, &mut version) {
            Err(e) => {
                proof {
                    lemma_refusal_sticks(all, i + 1);
                    assert(all.take(all.len() as int) =~= all);
                }
                return Err(e);
            },
            Ok(()) => {},
        }
        if entries.len() > n0 {
            let k = entries[n0].key;
            proof {
                let ev = entry_views(entries@);
                assert(ev.len() == e0.len() + 1);
                assert(forall|j: int| 0 <= j < e0.len() ==> ev[j] == entry_views(e0)[j]);
                if sets_experimental(entry_views(e0)) {
                    let w = choose|j: int| 0 <= j < e0.len() && (#[trigger] entry_views(e0)[j]).0.experimental();
                    assert(ev[w] == entry_views(e0)[w]);
                }
                if sets_architecture(entry_views(e0)) {
                    let w = choose|j: int| 0 <= j < e0.len() && (#[trigger] entry_views(e0)[j]).0.architecture();
                    assert(ev[w] == entry_views(e0)[w]);
                }
                assert(ev[n0 as int].0 == k);
            }
            experimental = experimental || k.is_experimental();
            architecture = architecture || k.is_architecture();
        } else {
            assert(entry_views(entries@) =~= entry_views(e0));
        }
        i += 1;
    }
    assert(all.take(lines@.len() as int) =~= all);
    if version == 0 {
        return Err(PrefError::MissingVersion);
    }
    if version == 1 && experimental {
        return Err(PrefError::ExperimentalNeedsV2);
    }
    if version < 3 && architecture {
        return Err(PrefError::ArchitectureNeedsV3);
    }
    Ok(entries)
}

/// How `key` is spelt in the file.
pub open spec fn key_name(key: PrefKey) -> Seq<char> {
    match key {
        PrefKey::Scale => "scale"@,
        PrefKey::Fov => "fov"@,
        PrefKey::Vsync => "vsync"@,
        PrefKey::Taa => "taa"@,
        PrefKey::Shadows => "shadows"@,
        PrefKey::Ao => "ao"@,
        PrefKey::Reflections => "reflections"@,
        PrefKey::Refraction => "refraction"@,
        PrefKey::Aces => "aces"@,
        PrefKey::Grade => "grade"@,
        PrefKey::GradeStrength => "grade_strength"@,
        PrefKey::FogDensity => "fog_density"@,
        PrefKey::Ambient => "ambient"@,
        PrefKey::IsolateGlass => "isolate_glass"@,
        PrefKey::ShadowPass => "shadow_pass"@,
        PrefKey::CompactShadeHit => "compact_shade_hit"@,
        PrefKey::GlassReflect => "glass_reflect"@,
        PrefKey::WaterLook => "water_look"@,
        PrefKey::WindSway => "wind_sway"@,
        PrefKey::SoftShadows => "soft_shadows"@,
    }
}

pub fn key_text(key: PrefKey) -> (s: &'static str)
    ensures
        s@ == key_name(key),
{
    match key {
        PrefKey::Scale => "scale",
        PrefKey::Fov => "fov",
        PrefKey::Vsync => "vsync",
        PrefKey::Taa => "taa",
        PrefKey::Shadows => "shadows",
        PrefKey::Ao => "ao",
        PrefKey::Reflections => "reflections",
        PrefKey::Refraction => "refraction",
        PrefKey::Aces => "aces",
        PrefKey::Grade => "grade",
        PrefKey::GradeStrength => "grade_strength",
        PrefKey::FogDensity => "fog_density",
        PrefKey::Ambient => "ambient",
        PrefKey::IsolateGlass => "isolate_glass",
        PrefKey::ShadowPass => "shadow_pass",
        PrefKey::CompactShadeHit => "compact_shade_hit",
        PrefKey::GlassReflect => "glass_reflect",
        PrefKey::WaterLook => "water_look",
        PrefKey::WindSway => "wind_sway",
        PrefKey::SoftShadows => "soft_shadows",
    }
}

/// How a value is written: a switch as `true` or `false`, a grade as its index, a number as
/// its text.
pub open spec fn setting_text(v: PrefSetting) -> Seq<char> {
    match v {
        PrefSetting::Flag(b) => if b { "true"@ } else { "false"@ },
        PrefSetting::Grade(g) => match g {
            Grade::Natural => "0"@,
            Grade::Warm => "1"@,
            Grade::Cine => "2"@,
        },
        PrefSetting::Number(t) => t,
    }
}

/// One entry as a line of the file.
pub open spec fn entry_line(e: (PrefKey, PrefSetting)) -> Seq<char> {
    key_name(e.0) + "="@ + setting_text(e.1) + "\n"@
}

/// The entries' lines, in order.
pub open spec fn entries_text(es: Seq<(PrefKey, PrefSetting)>) -> Seq<char>
    decreases es.len(),
{
    if es.len() == 0 {
        Seq::empty()
    } else {
        entries_text(es.drop_last()) + entry_line(es.last())
    }
}

/// A whole file: the version line, then one line for each entry.
pub open spec fn prefs_text(es: Seq<(PrefKey, PrefSetting)>) -> Seq<char> {
    "version=3\n"@ + entries_text(es)
}

/// Write `entries` as a preferences file of the current version.
pub fn encode_preferences(entries: &Vec<PrefEntry>) -> (s: String)
    ensures
        s@ == prefs_text(entry_views(entries@)),
{
    let mut s = String::new();
    s.append("version=3\n");
    let mut i: usize = 0;
    while i < entries.len()
        invariant
            i <= entries@.len(),
            s@ == prefs_text(entry_views(entries@.take(i as int))),
        decreases entries@.len() - i,
    {
        let e = &entries[i];
        let ghost before = s@;
        s.append(key_text(e.key));
        s.append("=");
        match &e.value {
            PrefValue::Flag(b) => s.append(if *b { "true" } else { "false" }),
            PrefValue::Grade(g) => s.append(
                match g {
                    Grade::Natural => "0",
                    Grade::Warm => "1",
                    Grade::Cine => "2",
                },
            ),
            PrefValue::Number(t) => s.append(t.as_str()),
        }
        s.append("\n");
        proof {
            let es = entry_views(entries@.take(i + 1));
            assert(es.drop_last() =~= entry_views(entries@.take(i as int)));
            assert(es.last() == e@);
            assert(s@ =~= before + entry_line(e@));
        }
        i += 1;
    }
    assert(entries@.take(entries@.len() as int) =~= entries@);
    s
}

// ------------------------------------------------------------------ reading back what was written

/// A character that cannot end a line, split a key from its value, start a comment, or be
/// trimmed away.
pub open spec fn tame(c: char) -> bool {
    !is_ws(c) && c != '=' && c != '\n' && c != '#'
}

pub open spec fn all_tame(s: Seq<char>) -> bool {
    forall|j: int| 0 <= j < s.len() ==> tame(#[trigger] s[j])
}

proof fn lemma_key_name(key: PrefKey)
    ensures
        all_tame(key_name(key)),
        key_name(key).len() > 0,
        key_of(key_name(key)) == Some(key),
        key_name(key) != "version"@,
{
    reveal_strlit("version");
    reveal_strlit("scale");
    reveal_strlit("fov");
    reveal_strlit("vsync");
    reveal_strlit("taa");
    reveal_strlit("shadows");
    reveal_strlit("ao");
    reveal_strlit("reflections");
    reveal_strlit("refraction");
    reveal_strlit("aces");
    reveal_strlit("grade");
    reveal_strlit("grade_strength");
    reveal_strlit("fog_density");
    reveal_strlit("ambient");
    reveal_strlit("isolate_glass");
    reveal_strlit("shadow_pass");
    reveal_strlit("compact_shade_hit");
    reveal_strlit("glass_reflect");
    reveal_strlit("water_look");
    reveal_strlit("wind_sway");
    reveal_strlit("soft_shadows");
    assert("version"@.len() == 7 && "version"@[0] == 'v');
    assert("scale"@.len() == 5 && "scale"@[0] == 's');
    assert("fov"@.len() == 3 && "fov"@[0] == 'f');
    assert("vsync"@.len() == 5 && "vsync"@[0] == 'v');
    assert("taa"@.len() == 3 && "taa"@[0] == 't');
    assert("shadows"@.len() == 7 && "shadows"@[0] == 's');
    assert("ao"@.len() == 2 && "ao"@[0] == 'a');
    assert("reflections"@.len() == 11 && "reflections"@[0] == 'r');
    assert("refraction"@.len() == 10 && "refraction"@[0] == 'r');
    assert("aces"@.len() == 4 && "aces"@[0] == 'a');
    assert("grade"@.len() == 5 && "grade"@[0] == 'g');
    assert("grade_strength"@.len() == 14 && "grade_strength"@[0] == 'g');
    assert("fog_density"@.len() == 11 && "fog_density"@[0] == 'f');
    assert("ambient"@.len() == 7 && "ambient"@[0] == 'a');
    assert("isolate_glass"@.len() == 13 && "isolate_glass"@[0] == 'i');
    assert("shadow_pass"@.len() == 11 && "shadow_pass"@[0] == 's');
    assert("compact_shade_hit"@.len() == 17 && "compact_shade_hit"@[0] == 'c');
    assert("glass_reflect"@.len() == 13 && "glass_reflect"@[0] == 'g');
    assert("water_look"@.len() == 10 && "water_look"@[0] == 'w');
    assert("wind_sway"@.len() == 9 && "wind_sway"@[0] == 'w');
    assert("soft_shadows"@.len() == 12 && "soft_shadows"@[0] == 's');
    match key {
        PrefKey::Scale => {},
        PrefKey::Fov => {},
        PrefKey::Vsync => {},
        PrefKey::Taa => {},
        PrefKey::Shadows => {},
        PrefKey::Ao => {},
        PrefKey::Reflections => {},
        PrefKey::Refraction => {},
        PrefKey::Aces => {},
        PrefKey::Grade => {},
        PrefKey::GradeStrength => {},
        PrefKey::FogDensity => {},
        PrefKey::Ambient => {},
        PrefKey::IsolateGlass => {},
        PrefKey::ShadowPass => {},
        PrefKey::CompactShadeHit => {},
        PrefKey::GlassReflect => {},
        PrefKey::WaterLook => {},
        PrefKey::WindSway => {},
        PrefKey::SoftShadows => {},
    }
}


/// Whether an entry's value is of the kind its key takes, a number's text one that `f32` reads.
pub open spec fn entry_ok(e: (PrefKey, PrefSetting)) -> bool {
    match e.1 {
        PrefSetting::Grade(_) => e.0 == PrefKey::Grade,
        PrefSetting::Number(t) => e.0.numeric() && float_text(t),
        PrefSetting::Flag(_) => e.0 != PrefKey::Grade && !e.0.numeric(),
    }
}

/// Whether no key is set twice.
pub open spec fn keys_distinct(es: Seq<(PrefKey, PrefSetting)>) -> bool {
    forall|i: int, j: int| 0 <= i < j < es.len() ==> (#[trigger] es[i]).0 != (#[trigger] es[j]).0
}

proof fn lemma_setting_text(key: PrefKey, v: PrefSetting)
    requires
        entry_ok((key, v)),
    ensures
        all_tame(setting_text(v)),
        setting_text(v).len() > 0,
        value_of(key, setting_text(v)) == Ok::<PrefSetting, PrefFault>(v),
{
    reveal_strlit("true");
    reveal_strlit("false");
    reveal_strlit("0");
    reveal_strlit("1");
    reveal_strlit("2");
    assert("true"@ =~= seq!['t', 'r', 'u', 'e']);
    assert("false"@ =~= seq!['f', 'a', 'l', 's', 'e']);
    assert("0"@ =~= seq!['0']);
    assert("1"@ =~= seq!['1']);
    assert("2"@ =~= seq!['2']);
    match v {
        PrefSetting::Number(t) => {
            lemma_float_text_chars(t);
            assert forall|j: int| 0 <= j < t.len() implies tame(#[trigger] t[j]) by {
                assert(plain_char(t[j]));
            }
            lemma_float_text_nonempty(t);
        },
        PrefSetting::Flag(b) => {
            assert(key != PrefKey::Grade && !key.numeric());
            assert("false"@ != "true"@);
        },
        PrefSetting::Grade(g) => {
            assert(key == PrefKey::Grade);
            assert("0"@[0] == '0' && "1"@[0] == '1' && "2"@[0] == '2');
        },
    }
}

/// A line `a=b`, with `a` not empty and both tame, reads as key `a` and value `b`.
proof fn lemma_line(a: Seq<char>, b: Seq<char>)
    requires
        all_tame(a),
        all_tame(b),
        a.len() > 0,
    ensures
        trim(a + "="@ + b) == a + "="@ + b,
        (a + "="@ + b)[0] != '#',
        first_index(a + "="@ + b, '=') < (a + "="@ + b).len(),
        line_key(a + "="@ + b) == a,
        line_value(a + "="@ + b) == b,
{
    reveal_strlit("=");
    let line = a + "="@ + b;
    assert("="@ =~= seq!['=']);
    assert(line =~= a + seq!['='] + b);
    assert forall|j: int| 0 <= j < line.len() implies !is_ws(#[trigger] line[j]) by {
        if j < a.len() {
            assert(tame(a[j]));
        } else if j > a.len() {
            assert(line[j] == b[j - a.len() - 1]);
            assert(tame(b[j - a.len() - 1]));
        }
    }
    lemma_trim_plain(line);
    assert(tame(a[0]));
    lemma_first_index_after(a, '=', b);
    assert(line.take(a.len() as int) =~= a);
    assert(line.skip(a.len() as int + 1) =~= b);
    assert forall|j: int| 0 <= j < a.len() implies !is_ws(#[trigger] a[j]) by {
        assert(tame(a[j]));
    }
    assert forall|j: int| 0 <= j < b.len() implies !is_ws(#[trigger] b[j]) by {
        assert(tame(b[j]));
    }
    lemma_trim_plain(a);
    lemma_trim_plain(b);
}

/// The body of an entry's line, without its newline.
pub open spec fn entry_body(e: (PrefKey, PrefSetting)) -> Seq<char> {
    key_name(e.0) + "="@ + setting_text(e.1)
}

/// The lines of a written file: the version line, then one for each entry.
pub open spec fn file_lines(es: Seq<(PrefKey, PrefSetting)>) -> Seq<Seq<char>>
    decreases es.len(),
{
    if es.len() == 0 {
        seq!["version=3"@]
    } else {
        file_lines(es.drop_last()).push(entry_body(es.last()))
    }
}

proof fn lemma_body_tame(e: (PrefKey, PrefSetting))
    requires
        entry_ok(e),
    ensures
        forall|j: int| 0 <= j < entry_body(e).len() ==> #[trigger] entry_body(e)[j] != '\n',
{
    lemma_key_name(e.0);
    lemma_setting_text(e.0, e.1);
    reveal_strlit("=");
    let a = key_name(e.0);
    let b = setting_text(e.1);
    assert forall|j: int| 0 <= j < entry_body(e).len() implies #[trigger] entry_body(e)[j] != '\n' by {
        if j < a.len() {
            assert(tame(a[j]));
        } else if j > a.len() {
            assert(entry_body(e)[j] == b[j - a.len() - 1]);
            assert(tame(b[j - a.len() - 1]));
        } else {
            assert(entry_body(e)[j] == "="@[0]);
        }
    }
}

/// A written file splits into its lines and one empty field after the last newline.
proof fn lemma_file_split(es: Seq<(PrefKey, PrefSetting)>)
    requires
        forall|i: int| 0 <= i < es.len() ==> entry_ok(#[trigger] es[i]),
    ensures
        split_on(prefs_text(es), '\n') == file_lines(es).push(Seq::empty()),
    decreases es.len(),
{
    reveal_strlit("version=3\n");
    reveal_strlit("version=3");
    reveal_strlit("\n");
    if es.len() == 0 {
        let v = "version=3"@;
        assert(v =~= seq!['v', 'e', 'r', 's', 'i', 'o', 'n', '=', '3']);
        assert(prefs_text(es) =~= v.push('\n'));
        lemma_split_push_sep(v, '\n');
        assert(forall|j: int| 0 <= j < v.len() ==> #[trigger] v[j] != '\n');
        lemma_split_extend(Seq::empty(), v, '\n');
        assert(Seq::<char>::empty() + v =~= v);
        assert(split_on(Seq::<char>::empty(), '\n') =~= seq![Seq::<char>::empty()]);
        assert(seq![Seq::<char>::empty()].update(0, Seq::<char>::empty() + v) =~= seq![v]);
    } else {
        let e = es.last();
        let es0 = es.drop_last();
        assert forall|i: int| 0 <= i < es0.len() implies entry_ok(#[trigger] es0[i]) by {
            assert(es0[i] == es[i]);
        }
        lemma_file_split(es0);
        let x = prefs_text(es0);
        let body = entry_body(e);
        assert(entry_line(e) =~= body.push('\n'));
        assert(prefs_text(es) =~= (x + body).push('\n'));
        lemma_split_push_sep(x + body, '\n');
        lemma_body_tame(e);
        lemma_split_extend(x, body, '\n');
        let p = split_on(x, '\n');
        assert(p.last() =~= Seq::<char>::empty());
        assert(Seq::<char>::empty() + body =~= body);
        assert(p.update(p.len() - 1, p.last() + body) =~= file_lines(es0).push(body));
    }
}

/// The keys met on reading the lines of a written file: `version`, then the entries' keys.
pub open spec fn written_keys(es: Seq<(PrefKey, PrefSetting)>) -> Seq<Seq<char>> {
    seq!["version"@] + es.map_values(|e: (PrefKey, PrefSetting)| key_name(e.0))
}

/// Reading the lines of a written file gathers its entries, under version 3.
proof fn lemma_file_scan(es: Seq<(PrefKey, PrefSetting)>)
    requires
        forall|i: int| 0 <= i < es.len() ==> entry_ok(#[trigger] es[i]),
        keys_distinct(es),
    ensures
        scan_lines(file_lines(es)) == Ok::<PrefScan, PrefFault>(
            PrefScan { entries: es, keys: written_keys(es), version: 3 },
        ),
    decreases es.len(),
{
    reveal_strlit("version");
    reveal_strlit("3");
    reveal_strlit("version=3");
    reveal_strlit("=");
    if es.len() == 0 {
        let l = "version=3"@;
        assert(l =~= "version"@ + "="@ + "3"@);
        assert("version"@ =~= seq!['v', 'e', 'r', 's', 'i', 'o', 'n']);
        assert("3"@ =~= seq!['3']);
        reveal_strlit("1");
        reveal_strlit("2");
        assert("1"@ =~= seq!['1']);
        assert("2"@ =~= seq!['2']);
        assert("3"@ != "1"@ && "3"@ != "2"@);
        assert(all_tame("version"@));
        assert(all_tame("3"@));
        lemma_line("version"@, "3"@);
        let lines = file_lines(es);
        assert(lines.drop_last() =~= Seq::<Seq<char>>::empty());
        let init = PrefScan { entries: Seq::empty(), keys: Seq::empty(), version: 0 };
        assert(scan_lines(lines.drop_last()) == Ok::<PrefScan, PrefFault>(init));
        assert(lines.last() == l);
        assert(trim(l) == l);
        assert(l.len() > 0 && l[0] != '#');
        assert(first_index(l, '=') < l.len());
        assert(line_key(l) == "version"@);
        assert(line_value(l) == "3"@);
        assert(!init.keys.contains("version"@));
        assert(scan_line(init, l) == Ok::<PrefScan, PrefFault>(
            PrefScan { entries: Seq::empty(), keys: seq!["version"@], version: 3 }));
        assert(es =~= Seq::<(PrefKey, PrefSetting)>::empty());
        assert(written_keys(es) =~= seq!["version"@]);
        assert(Seq::<Seq<char>>::empty().push("version"@) =~= seq!["version"@]);
    } else {
        let e = es.last();
        let es0 = es.drop_last();
        assert forall|i: int| 0 <= i < es0.len() implies entry_ok(#[trigger] es0[i]) by {
            assert(es0[i] == es[i]);
        }
        assert(keys_distinct(es0)) by {
            assert forall|i: int, j: int| 0 <= i < j < es0.len() implies (#[trigger] es0[i]).0 != (
            #[trigger] es0[j]).0 by {
                assert(es0[i] == es[i]);
                assert(es0[j] == es[j]);
            }
        }
        lemma_file_scan(es0);
        assert(file_lines(es).drop_last() =~= file_lines(es0));
        let st = PrefScan { entries: es0, keys: written_keys(es0), version: 3 };
        lemma_key_name(e.0);
        lemma_setting_text(e.0, e.1);
        lemma_line(key_name(e.0), setting_text(e.1));
        let k = key_name(e.0);
        assert(!st.keys.contains(k)) by {
            if st.keys.contains(k) {
                let i = choose|i: int| 0 <= i < st.keys.len() && st.keys[i] == k;
                assert(i != 0);
                let d = es0[i - 1];
                assert(st.keys[i] == key_name(d.0));
                lemma_key_name(d.0);
                assert(d.0 == e.0);
                assert(es[i - 1] == d);
                assert(es[es.len() - 1] == e);
                assert(es[i - 1].0 != es[es.len() - 1].0);
            }
        }
        assert(written_keys(es) =~= st.keys.push(k));
        assert(es0.push(e) =~= es);
        let l = entry_body(e);
        assert(scan_lines(file_lines(es)) == scan_line(st, l));
        assert(line_key(l) == k);
        assert(key_of(k) == Some(e.0));
        assert(value_of(e.0, line_value(l)) == Ok::<PrefSetting, PrefFault>(e.1));
        assert(scan_line(st, l) == Ok::<PrefScan, PrefFault>(
            PrefScan { entries: es0.push(e), keys: st.keys.push(k), version: 3 }));
    }
}

/// A file written from entries, each with a value of the kind its key takes and no key twice,
/// reads back as exactly those entries.
pub proof fn law_written_preferences_read_back(es: Seq<(PrefKey, PrefSetting)>)
    requires
        forall|i: int| 0 <= i < es.len() ==> entry_ok(#[trigger] es[i]),
        keys_distinct(es),
    ensures
        prefs_outcome(prefs_text(es)) == Ok::<Seq<(PrefKey, PrefSetting)>, PrefFault>(es),
{
    lemma_file_split(es);
    lemma_file_scan(es);
    let lines = file_lines(es);
    assert(lines.push(Seq::empty()).drop_last() =~= lines);
    assert(trim(Seq::<char>::empty()) =~= Seq::<char>::empty());
}

} // verus!
