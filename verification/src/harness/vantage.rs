//! What a crop of a vantage is supposed to contain, and the capture size every number
//! in the fixture was taken at.

use crate::text::{chars_of, eq_text, range_views, split_on, split_ranges, trim, trim_range};
use vstd::prelude::*;

verus! {

/// What a crop is supposed to contain.
#[derive(Clone, Copy, Debug, PartialEq, Eq)]
pub enum Content {
    /// Every pixel is water. Must move under `--no-water`.
    Water,
    /// No pixel is water, and none is sky. Must not move under `--no-water`.
    Land,
    /// Sky and cloud only.
    Sky,
    /// Deliberately mixed; no automatic check applies.
    Mixed,
}

impl Content {
    pub fn label(&self) -> (s: &'static str)
        ensures
            s@ == match *self {
                Content::Water => "water"@,
                Content::Land => "land"@,
                Content::Sky => "sky"@,
                Content::Mixed => "mixed"@,
            },
    {
        match self {
            Content::Water => "water",
            Content::Land => "land",
            Content::Sky => "sky",
            Content::Mixed => "mixed",
        }
    }
}

/// The standard capture size.
pub const STD_WIDTH: u32 = 1280;
pub const STD_HEIGHT: u32 = 720;


/// The fixture's vantages, by name, in the order it lists them.
pub fn vantage_names() -> (v: Vec<&'static str>)
    ensures
        v@ == seq![
            "default", "coastline", "open-sea", "shore", "lattice", "terraces", "lod", "low-sun", "sky",
            "overcast", "underwater", "sea-horizon", "deep-water", "cave", "night", "edits", "glass",
            "glass-sea", "lamps", "canopy", "offscreen-shadow",
        ],
{
    vec![
        "default", "coastline", "open-sea", "shore", "lattice", "terraces", "lod", "low-sun", "sky",
        "overcast", "underwater", "sea-horizon", "deep-water", "cave", "night", "edits", "glass",
        "glass-sea", "lamps", "canopy", "offscreen-shadow",
    ]
}

pub open spec fn name_views(names: Seq<&str>) -> Seq<Seq<char>> {
    Seq::new(names.len(), |k: int| names[k]@)
}

/// The position of the first of `names`, from `from` on, that is `name`.
pub open spec fn first_named(names: Seq<Seq<char>>, name: Seq<char>, from: int) -> Option<int>
    decreases names.len() - from,
{
    if from < 0 || from >= names.len() {
        None
    } else if names[from] == name {
        Some(from)
    } else {
        first_named(names, name, from + 1)
    }
}

/// The vantages that the first `n` of the comma-separated `fields` name, each trimmed, or
/// the first of those names that no vantage has.
pub open spec fn picked(names: Seq<Seq<char>>, fields: Seq<Seq<char>>, n: int) -> Result<Seq<int>, Seq<char>>
    decreases n,
{
    if n <= 0 {
        Ok(Seq::empty())
    } else {
        match picked(names, fields, n - 1) {
            Err(e) => Err(e),
            Ok(s) => match first_named(names, trim(fields[n - 1]), 0) {
                Some(k) => Ok(s.push(k)),
                None => Err(trim(fields[n - 1])),
            },
        }
    }
}

/// What a selection resolves to: every vantage, in order, when it is blank; else the vantage
/// each comma-separated name picks, or the first name that picks none.
pub open spec fn selection(names: Seq<Seq<char>>, sel: Seq<char>) -> Result<Seq<int>, Seq<char>> {
    if trim(sel).len() == 0 {
        Ok(Seq::new(names.len(), |k: int| k))
    } else {
        let fields = split_on(sel, ',');
        picked(names, fields, fields.len() as int)
    }
}

/// The position of the vantage named `name` among `names`.
pub fn find(name: &str, names: &[&str]) -> (r: Option<usize>)
    ensures
        match r {
            Some(k) => first_named(name_views(names@), name@, 0) == Some(k as int),
            None => first_named(name_views(names@), name@, 0) is None,
        },
{
    let c = chars_of(name);
    assert(c@.subrange(0, c@.len() as int) =~= name@);
    find_chars(&c, 0, c.len(), names)
}

/// The position of the vantage whose name is the characters `lo..hi` of `c`.
fn find_chars(c: &Vec<char>, lo: usize, hi: usize, names: &[&str]) -> (r: Option<usize>)
    requires
        lo <= hi <= c@.len(),
    ensures
        match r {
            Some(k) => first_named(name_views(names@), c@.subrange(lo as int, hi as int), 0) == Some(k as int),
            None => first_named(name_views(names@), c@.subrange(lo as int, hi as int), 0) is None,
        },
{
    let ghost nv = name_views(names@);
    let ghost t = c@.subrange(lo as int, hi as int);
    let mut k: usize = 0;
    while k < names.len()
        invariant
            k <= names@.len(),
            lo <= hi <= c@.len(),
            nv == name_views(names@),
            t == c@.subrange(lo as int, hi as int),
            first_named(nv, t, 0) == first_named(nv, t, k as int),
        decreases names@.len() - k,
    {
        if eq_text(c, lo, hi, names[k]) {
            return Some(k);
        }
        k += 1;
    }
    None
}

/// Resolve a comma-separated selection to vantage positions among `names`: every one, in
/// order, when the selection is blank; else, field by field and each trimmed, the first
/// vantage of that name -- or the first name that no vantage has.
pub fn select(sel: &str, names: &[&str]) -> (r: Result<Vec<usize>, String>)
    ensures
        match (r, selection(name_views(names@), sel@)) {
            (Ok(v), Ok(s)) => v@.len() == s.len() && forall|j: int| 0 <= j < s.len() ==> v@[j] == #[trigger] s[j],
            (Err(e), Err(t)) => e@ == t,
            _ => false,
        },
{
    let ghost nv = name_views(names@);
    let c = chars_of(sel);
    let (a, b) = trim_range(&c, 0, c.len());
    assert(c@.subrange(0, c@.len() as int) =~= sel@);
    if a == b {
        let mut all: Vec<usize> = Vec::new();
        let mut k: usize = 0;
        while k < names.len()
            invariant
                k <= names@.len(),
                all@.len() == k,
                forall|j: int| 0 <= j < k ==> all@[j] == j,
            decreases names@.len() - k,
        {
            all.push(k);
            k += 1;
        }
        return Ok(all);
    }
    assert(trim(sel@).len() != 0);
    let ranges = split_ranges(&c, ',');
    let ghost fields = split_on(sel@, ',');
    assert(range_views(c@, ranges@) == fields);
    assert(fields.len() == ranges@.len());
    assert(selection(nv, sel@) == picked(nv, fields, fields.len() as int));
    let mut out: Vec<usize> = Vec::new();
    let mut t: usize = 0;
    while t < ranges.len()
        invariant
            t <= ranges@.len(),
            nv == name_views(names@),
            c@ == sel@,
            fields == split_on(sel@, ','),
            fields.len() == ranges@.len(),
            selection(nv, sel@) == picked(nv, fields, fields.len() as int),
            range_views(c@, ranges@) == fields,
            forall|k: int| 0 <= k < ranges@.len() ==> (#[trigger] ranges@[k]).0 <= ranges@[k].1 <= c@.len(),
            picked(nv, fields, t as int) matches Ok(s) && out@.len() == s.len()
                && forall|j: int| 0 <= j < s.len() ==> out@[j] == #[trigger] s[j],
        decreases ranges@.len() - t,
    {
        let (lo, hi) = ranges[t];
        assert(fields[t as int] == c@.subrange(lo as int, hi as int));
        let (p, q) = trim_range(&c, lo, hi);
        let ghost s = picked(nv, fields, t as int)->Ok_0;
        match find_chars(&c, p, q, names) {
            Some(k) => {
                out.push(k);
                assert(picked(nv, fields, t + 1) == Ok::<Seq<int>, Seq<char>>(s.push(k as int)));
                assert forall|j: int| 0 <= j < s.len() + 1 implies out@[j] == #[trigger] s.push(k as int)[j] by {
                    if j < s.len() {
                        assert(s.push(k as int)[j] == s[j]);
                    }
                }
            },
            None => {
                assert(picked(nv, fields, t + 1) == Err::<Seq<int>, Seq<char>>(trim(fields[t as int])));
                let bad = sel.substring_char(p, q).to_owned();
                assert(bad@ == trim(fields[t as int]));
                proof {
                    lemma_picked_err_stays(nv, fields, t + 1, fields.len() as int);
                    assert(selection(nv, sel@) == Err::<Seq<int>, Seq<char>>(bad@));
                }
                return Err(bad);
            },
        }
        t += 1;
    }
    Ok(out)
}

/// Once a name picks no vantage, the selection stays refused with that name.
proof fn lemma_picked_err_stays(names: Seq<Seq<char>>, fields: Seq<Seq<char>>, m: int, n: int)
    requires
        m <= n,
        picked(names, fields, m) is Err,
    ensures
        picked(names, fields, n) == picked(names, fields, m),
    decreases n - m,
{
    if m < n {
        lemma_picked_err_stays(names, fields, m, n - 1);
    }
}
} // verus!
