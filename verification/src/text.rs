//! Text: decimal and hexadecimal digits, white space and trimming, splitting at a separator,
//! and the grammar of the numbers `f32` reads.

use vstd::prelude::*;

verus! {

/// The lower-case hex digit of `d`.
pub open spec fn hex_char(d: u32) -> char {
    match d {
        0 => '0',
        1 => '1',
        2 => '2',
        3 => '3',
        4 => '4',
        5 => '5',
        6 => '6',
        7 => '7',
        8 => '8',
        9 => '9',
        10 => 'a',
        11 => 'b',
        12 => 'c',
        13 => 'd',
        14 => 'e',
        _ => 'f',
    }
}

pub fn hex_digit(d: u32) -> (s: &'static str)
    requires
        d < 16,
    ensures
        s@ == seq![hex_char(d)],
{
    match d {
        0 => { proof { reveal_strlit("0"); } "0" },
        1 => { proof { reveal_strlit("1"); } "1" },
        2 => { proof { reveal_strlit("2"); } "2" },
        3 => { proof { reveal_strlit("3"); } "3" },
        4 => { proof { reveal_strlit("4"); } "4" },
        5 => { proof { reveal_strlit("5"); } "5" },
        6 => { proof { reveal_strlit("6"); } "6" },
        7 => { proof { reveal_strlit("7"); } "7" },
        8 => { proof { reveal_strlit("8"); } "8" },
        9 => { proof { reveal_strlit("9"); } "9" },
        10 => { proof { reveal_strlit("a"); } "a" },
        11 => { proof { reveal_strlit("b"); } "b" },
        12 => { proof { reveal_strlit("c"); } "c" },
        13 => { proof { reveal_strlit("d"); } "d" },
        14 => { proof { reveal_strlit("e"); } "e" },
        _ => { proof { reveal_strlit("f"); } "f" },
    }
}


/// The decimal digits of `n`, most significant first.
pub open spec fn decimal(n: nat) -> Seq<char>
    decreases n,
{
    if n < 10 {
        seq![hex_char(n as u32)]
    } else {
        decimal(n / 10) + seq![hex_char((n % 10) as u32)]
    }
}

/// Append the decimal digits of `n`.
pub fn push_decimal(out: &mut String, n: u64)
    ensures
        final(out)@ == old(out)@ + decimal(n as nat),
    decreases n,
{
    if n >= 10 {
        push_decimal(out, n / 10);
    }
    out.append(hex_digit((n % 10) as u32));
}

/// `n` in decimal, as `to_string` prints it.
pub fn decimal_string(n: u64) -> (s: String)
    ensures
        s@ == decimal(n as nat),
{
    let mut s = String::new();
    push_decimal(&mut s, n);
    s
}


// ------------------------------------------------------------------ text as characters

/// Unicode `White_Space`, which is what `char::is_whitespace` and `str::trim` go by.
pub open spec fn is_ws(c: char) -> bool {
    let u = c as u32;
    (0x09 <= u <= 0x0D) || u == 0x20 || u == 0x85 || u == 0xA0 || u == 0x1680 || (0x2000 <= u <= 0x200A)
        || u == 0x2028 || u == 0x2029 || u == 0x202F || u == 0x205F || u == 0x3000
}

pub fn char_is_ws(c: char) -> (b: bool)
    ensures
        b == is_ws(c),
{
    let u = c as u32;
    (0x09 <= u && u <= 0x0D) || u == 0x20 || u == 0x85 || u == 0xA0 || u == 0x1680 || (0x2000 <= u && u <= 0x200A)
        || u == 0x2028 || u == 0x2029 || u == 0x202F || u == 0x205F || u == 0x3000
}

pub open spec fn trim_start(s: Seq<char>) -> Seq<char>
    decreases s.len(),
{
    if s.len() > 0 && is_ws(s[0]) { trim_start(s.drop_first()) } else { s }
}

pub open spec fn trim_end(s: Seq<char>) -> Seq<char>
    decreases s.len(),
{
    if s.len() > 0 && is_ws(s.last()) { trim_end(s.drop_last()) } else { s }
}

/// `s` without leading or trailing white space.
pub open spec fn trim(s: Seq<char>) -> Seq<char> {
    trim_end(trim_start(s))
}

pub open spec fn is_digit(c: char) -> bool {
    '0' <= c <= '9'
}

/// `s` split at every `sep`, as `str::split` does: an empty string is one empty field.
pub open spec fn split_on(s: Seq<char>, sep: char) -> Seq<Seq<char>>
    decreases s.len(),
{
    if s.len() == 0 {
        seq![Seq::empty()]
    } else {
        let prev = split_on(s.drop_last(), sep);
        if s.last() == sep {
            prev.push(Seq::empty())
        } else {
            prev.update(prev.len() - 1, prev.last().push(s.last()))
        }
    }
}

/// The characters of `s`.
pub fn chars_of(s: &str) -> (v: Vec<char>)
    ensures
        v@ == s@,
{
    let n = s.unicode_len();
    let mut v: Vec<char> = Vec::new();
    let mut i: usize = 0;
    while i < n
        invariant
            i <= n,
            n == s@.len(),
            v@ == s@.take(i as int),
        decreases n - i,
    {
        v.push(s.get_char(i));
        assert(s@.take(i + 1) =~= s@.take(i as int).push(s@[i as int]));
        i += 1;
    }
    assert(s@.take(n as int) =~= s@);
    v
}

/// The field between `lo` and `hi` with white space trimmed, as `lo'..hi'`.
pub fn trim_range(c: &Vec<char>, lo: usize, hi: usize) -> (r: (usize, usize))
    requires
        lo <= hi <= c@.len(),
    ensures
        lo <= r.0 <= r.1 <= hi,
        c@.subrange(r.0 as int, r.1 as int) == trim(c@.subrange(lo as int, hi as int)),
{
    let mut a = lo;
    while a < hi && char_is_ws(c[a])
        invariant
            lo <= a <= hi <= c@.len(),
            trim_start(c@.subrange(lo as int, hi as int)) == trim_start(c@.subrange(a as int, hi as int)),
        decreases hi - a,
    {
        assert(c@.subrange(a as int, hi as int).drop_first() =~= c@.subrange(a + 1, hi as int));
        a += 1;
    }
    assert(trim_start(c@.subrange(a as int, hi as int)) == c@.subrange(a as int, hi as int));
    let mut b = hi;
    while b > a && char_is_ws(c[b - 1])
        invariant
            lo <= a <= b <= hi <= c@.len(),
            trim_end(c@.subrange(a as int, hi as int)) == trim_end(c@.subrange(a as int, b as int)),
        decreases b - a,
    {
        assert(c@.subrange(a as int, b as int).drop_last() =~= c@.subrange(a as int, b - 1));
        b -= 1;
    }
    assert(trim_end(c@.subrange(a as int, b as int)) == c@.subrange(a as int, b as int));
    (a, b)
}

/// The character ranges `ranges` of `c`, as strings.
pub open spec fn range_views(c: Seq<char>, ranges: Seq<(usize, usize)>) -> Seq<Seq<char>> {
    Seq::new(ranges.len(), |k: int| c.subrange(ranges[k].0 as int, ranges[k].1 as int))
}

/// Where the `sep`s of `c` split it.
#[verifier::spinoff_prover]
pub fn split_ranges(c: &Vec<char>, sep: char) -> (r: Vec<(usize, usize)>)
    ensures
        range_views(c@, r@) == split_on(c@, sep),
        forall|k: int| 0 <= k < r@.len() ==> (#[trigger] r@[k]).0 <= r@[k].1 <= c@.len(),
{
    let mut ranges: Vec<(usize, usize)> = Vec::new();
    let mut start: usize = 0;
    let mut i: usize = 0;
    assert(c@.take(0) =~= Seq::<char>::empty());
    assert(range_views(c@, ranges@).push(c@.subrange(0, 0)) =~= seq![Seq::<char>::empty()]);
    while i < c.len()
        invariant
            start <= i <= c@.len(),
            forall|k: int| 0 <= k < ranges@.len() ==> (#[trigger] ranges@[k]).0 <= ranges@[k].1 <= c@.len(),
            split_on(c@.take(i as int), sep) == range_views(c@, ranges@).push(c@.subrange(start as int, i as int)),
        decreases c@.len() - i,
    {
        let ghost prev = range_views(c@, ranges@);
        assert(c@.take(i + 1).drop_last() =~= c@.take(i as int));
        if c[i] == sep {
            let ghost s0 = start;
            let ghost r0 = ranges@;
            ranges.push((start, i));
            start = i + 1;
            assert forall|k: int| 0 <= k < ranges@.len() implies (#[trigger] ranges@[k]).0 <= ranges@[k].1 <= c@.len() by {
                if k < r0.len() {
                    assert(ranges@[k] == r0[k]);
                }
            }
            assert(range_views(c@, ranges@) =~= prev.push(c@.subrange(s0 as int, i as int)));
            assert(c@.take(i + 1).last() == sep);
            assert(c@.subrange(start as int, i + 1) =~= Seq::<char>::empty());
            assert(split_on(c@.take(i + 1), sep) =~= split_on(c@.take(i as int), sep).push(Seq::empty()));
            assert(split_on(c@.take(i + 1), sep) =~= range_views(c@, ranges@).push(c@.subrange(start as int, i + 1)));
        } else {
            assert(c@.subrange(start as int, i + 1) =~= c@.subrange(start as int, i as int).push(c@[i as int]));
            assert(c@.take(i + 1).last() == c@[i as int]);
            assert(split_on(c@.take(i + 1), sep) =~= range_views(c@, ranges@).push(c@.subrange(start as int, i + 1)));
        }
        i += 1;
    }
    let ghost prev = range_views(c@, ranges@);
    let ghost r0 = ranges@;
    assert(start <= c@.len());
    ranges.push((start, c.len()));
    assert(ranges@.len() == r0.len() + 1);
    assert forall|k: int| 0 <= k < ranges@.len() implies (#[trigger] ranges@[k]).0 <= ranges@[k].1 <= c@.len() by {
        if k < r0.len() {
            assert(ranges@[k] == r0[k]);
        } else {
            assert(ranges@[k] == (start, c@.len() as usize));
        }
    }
    assert(c@.take(c@.len() as int) =~= c@);
    assert(range_views(c@, ranges@) =~= prev.push(c@.subrange(start as int, c@.len() as int)));
    ranges
}


/// Whether the characters `lo..hi` spell `lit`.
pub fn eq_text(c: &Vec<char>, lo: usize, hi: usize, lit: &str) -> (b: bool)
    requires
        lo <= hi <= c@.len(),
    ensures
        b == (c@.subrange(lo as int, hi as int) == lit@),
{
    let ghost s = c@.subrange(lo as int, hi as int);
    let n = lit.unicode_len();
    if hi - lo != n {
        return false;
    }
    let mut i: usize = 0;
    while i < n
        invariant
            i <= n,
            n == lit@.len(),
            hi - lo == n,
            lo <= hi <= c@.len(),
            s == c@.subrange(lo as int, hi as int),
            forall|j: int| 0 <= j < i ==> #[trigger] s[j] == lit@[j],
        decreases n - i,
    {
        assert(s[i as int] == c@[lo + i]);
        if c[lo + i] != lit.get_char(i) {
            return false;
        }
        i += 1;
    }
    assert(s =~= lit@);
    true
}

/// Whether the characters `a1..b1` and `a2..b2` are the same.
pub fn same_text(c: &Vec<char>, a1: usize, b1: usize, a2: usize, b2: usize) -> (b: bool)
    requires
        a1 <= b1 <= c@.len(),
        a2 <= b2 <= c@.len(),
    ensures
        b == (c@.subrange(a1 as int, b1 as int) == c@.subrange(a2 as int, b2 as int)),
{
    let ghost s1 = c@.subrange(a1 as int, b1 as int);
    let ghost s2 = c@.subrange(a2 as int, b2 as int);
    if b1 - a1 != b2 - a2 {
        assert(s1.len() != s2.len());
        return false;
    }
    let n = b1 - a1;
    let mut i: usize = 0;
    while i < n
        invariant
            i <= n,
            n == b1 - a1,
            n == b2 - a2,
            a1 <= b1 <= c@.len(),
            a2 <= b2 <= c@.len(),
            s1 == c@.subrange(a1 as int, b1 as int),
            s2 == c@.subrange(a2 as int, b2 as int),
            forall|j: int| 0 <= j < i ==> #[trigger] s1[j] == s2[j],
        decreases n - i,
    {
        assert(s1[i as int] == c@[a1 + i]);
        assert(s2[i as int] == c@[a2 + i]);
        if c[a1 + i] != c[a2 + i] {
            assert(s1[i as int] != s2[i as int]);
            return false;
        }
        i += 1;
    }
    assert(s1 =~= s2);
    true
}

/// Position of the first `x` in `s`, or its length when there is none.
pub open spec fn first_index(s: Seq<char>, x: char) -> int
    decreases s.len(),
{
    if s.len() == 0 {
        0
    } else if first_index(s.drop_last(), x) < s.len() - 1 {
        first_index(s.drop_last(), x)
    } else if s.last() == x {
        s.len() - 1
    } else {
        s.len() as int
    }
}

/// Where the first `x` in the characters `lo..hi` is, counted from `lo`.
pub fn find_char(c: &Vec<char>, lo: usize, hi: usize, x: char) -> (p: usize)
    requires
        lo <= hi <= c@.len(),
    ensures
        p == first_index(c@.subrange(lo as int, hi as int), x),
        p <= hi - lo,
{
    let ghost s = c@.subrange(lo as int, hi as int);
    let mut i = lo;
    while i < hi && c[i] != x
        invariant
            lo <= i <= hi <= c@.len(),
            s == c@.subrange(lo as int, hi as int),
            first_index(s.take(i - lo), x) == i - lo,
        decreases hi - i,
    {
        assert(s.take(i + 1 - lo).drop_last() =~= s.take(i - lo));
        assert(s.take(i + 1 - lo).last() == c@[i as int]);
        i += 1;
    }
    proof {
        lemma_first_index_prefix(s, x, i - lo);
    }
    i - lo
}

/// Once a prefix holds `x`, or the whole has been read, the first `x` of the prefix is the
/// first of the whole.
pub(crate) proof fn lemma_first_index_prefix(s: Seq<char>, x: char, n: int)
    requires
        0 <= n <= s.len(),
        first_index(s.take(n), x) == n,
        n < s.len() ==> s[n] == x,
    ensures
        first_index(s, x) == n,
{
    if n < s.len() {
        assert(s.take(n + 1).drop_last() =~= s.take(n));
        assert(first_index(s.take(n + 1), x) == n);
        lemma_first_index_stable(s, x, n + 1);
    } else {
        assert(s.take(n) =~= s);
    }
}

proof fn lemma_first_index_stable(s: Seq<char>, x: char, m: int)
    requires
        0 <= m <= s.len(),
        first_index(s.take(m), x) < m,
    ensures
        first_index(s, x) == first_index(s.take(m), x),
    decreases s.len() - m,
{
    if m < s.len() {
        assert(s.take(m + 1).drop_last() =~= s.take(m));
        lemma_first_index_stable(s, x, m + 1);
    } else {
        assert(s.take(m) =~= s);
    }
}

/// Splitting always gives at least one field.
pub(crate) proof fn lemma_split_nonempty(s: Seq<char>, sep: char)
    ensures
        split_on(s, sep).len() >= 1,
    decreases s.len(),
{
    if s.len() > 0 {
        lemma_split_nonempty(s.drop_last(), sep);
    }
}

/// Text without `sep` added at the end goes onto the last field.
pub(crate) proof fn lemma_split_extend(x: Seq<char>, t: Seq<char>, sep: char)
    requires
        forall|j: int| 0 <= j < t.len() ==> #[trigger] t[j] != sep,
    ensures
        split_on(x + t, sep) == split_on(x, sep).update(
            split_on(x, sep).len() - 1,
            split_on(x, sep).last() + t,
        ),
    decreases t.len(),
{
    lemma_split_nonempty(x, sep);
    let p = split_on(x, sep);
    if t.len() == 0 {
        assert(x + t =~= x);
        assert(p.last() + t =~= p.last());
        assert(p.update(p.len() - 1, p.last() + t) =~= p);
    } else {
        let t0 = t.drop_last();
        assert forall|j: int| 0 <= j < t0.len() implies #[trigger] t0[j] != sep by {
            assert(t0[j] == t[j]);
        }
        lemma_split_extend(x, t0, sep);
        assert((x + t).drop_last() =~= x + t0);
        assert((x + t).last() == t.last());
        assert(t[t.len() - 1] != sep);
        lemma_split_nonempty(x + t0, sep);
        let q = split_on(x + t0, sep);
        assert(q =~= p.update(p.len() - 1, p.last() + t0));
        assert(q.last() + seq![t.last()] =~= p.last() + t);
        assert(q.last().push(t.last()) =~= p.last() + t);
        assert(q.update(q.len() - 1, q.last().push(t.last())) =~= p.update(p.len() - 1, p.last() + t));
    }
}

/// A `sep` at the end opens an empty field.
pub(crate) proof fn lemma_split_push_sep(x: Seq<char>, sep: char)
    ensures
        split_on(x.push(sep), sep) == split_on(x, sep).push(Seq::empty()),
{
    assert(x.push(sep).drop_last() =~= x);
}

/// Text with no white space is its own trim.
pub(crate) proof fn lemma_trim_plain(s: Seq<char>)
    requires
        forall|j: int| 0 <= j < s.len() ==> !is_ws(#[trigger] s[j]),
    ensures
        trim(s) == s,
{
    if s.len() > 0 {
        assert(!is_ws(s[0]));
        assert(!is_ws(s[s.len() - 1]));
    }
    assert(trim_start(s) == s);
}

/// Text without `x` has its first `x` at its end.
pub(crate) proof fn lemma_first_index_absent(s: Seq<char>, x: char)
    requires
        forall|j: int| 0 <= j < s.len() ==> #[trigger] s[j] != x,
    ensures
        first_index(s, x) == s.len(),
    decreases s.len(),
{
    if s.len() > 0 {
        let s0 = s.drop_last();
        assert forall|j: int| 0 <= j < s0.len() implies #[trigger] s0[j] != x by {
            assert(s0[j] == s[j]);
        }
        lemma_first_index_absent(s0, x);
        assert(s[s.len() - 1] != x);
    }
}

/// In `a`, then `x`, then `b`, with no `x` in `a`, the first `x` is the one after `a`.
pub(crate) proof fn lemma_first_index_after(a: Seq<char>, x: char, b: Seq<char>)
    requires
        forall|j: int| 0 <= j < a.len() ==> #[trigger] a[j] != x,
    ensures
        first_index(a + seq![x] + b, x) == a.len(),
{
    let s = a + seq![x] + b;
    lemma_first_index_absent(a, x);
    assert(s.take(a.len() as int) =~= a);
    assert(s[a.len() as int] == x);
    lemma_first_index_prefix(s, x, a.len() as int);
}

// ------------------------------------------------------------------ floating-point text

/// An ASCII letter or digit, a sign or a point.
pub open spec fn plain_char(c: char) -> bool {
    ('a' <= c && c <= 'z') || ('A' <= c && c <= 'Z') || is_digit(c) || c == '+' || c == '-' || c == '.'
}

/// `c` with an ASCII capital made small.
pub open spec fn lower(c: char) -> char {
    if 'A' <= c && c <= 'Z' {
        ((c as u32) + 32) as char
    } else {
        c
    }
}

pub open spec fn lowered(s: Seq<char>) -> Seq<char> {
    s.map_values(|c: char| lower(c))
}

/// `s` without one leading `+` or `-`.
pub open spec fn unsigned_part(s: Seq<char>) -> Seq<char> {
    if s.len() > 0 && (s[0] == '+' || s[0] == '-') {
        s.drop_first()
    } else {
        s
    }
}

pub open spec fn all_digits(s: Seq<char>) -> bool {
    forall|i: int| 0 <= i < s.len() ==> is_digit(#[trigger] s[i])
}

/// How many times `c` occurs in `s`.
pub open spec fn count_of(s: Seq<char>, c: char) -> nat
    decreases s.len(),
{
    if s.len() == 0 {
        0
    } else {
        count_of(s.drop_last(), c) + if s.last() == c { 1nat } else { 0nat }
    }
}

/// Digits with at most one point among them, and at least one digit.
pub open spec fn mantissa(m: Seq<char>) -> bool {
    &&& forall|i: int| 0 <= i < m.len() ==> is_digit(#[trigger] m[i]) || m[i] == '.'
    &&& count_of(m, '.') <= 1
    &&& exists|i: int| 0 <= i < m.len() && is_digit(#[trigger] m[i])
}

/// An exponent after its `e`: an optional sign, then at least one digit.
pub open spec fn exponent(x: Seq<char>) -> bool {
    unsigned_part(x).len() > 0 && all_digits(unsigned_part(x))
}

/// A decimal number, with an exponent or without.
pub open spec fn number(t: Seq<char>) -> bool {
    exists|p: int|
        0 <= p <= t.len() && #[trigger] mantissa(t.take(p)) && (p == t.len() || ((t[p] == 'e' || t[p]
            == 'E') && exponent(t.skip(p + 1))))
}

/// What `str::parse::<f32>` accepts, as its documentation gives the grammar: an optional
/// sign, then `inf`, `infinity` or `nan` in any case, or a decimal number with an optional
/// exponent; nothing else, and no white space.
pub open spec fn float_text(s: Seq<char>) -> bool {
    let t = unsigned_part(s);
    lowered(t) == "inf"@ || lowered(t) == "infinity"@ || lowered(t) == "nan"@ || number(t)
}

/// Whether the characters `lo..hi`, made small, spell `lit`, which is itself small.
fn eq_lower(c: &Vec<char>, lo: usize, hi: usize, lit: &str) -> (b: bool)
    requires
        lo <= hi <= c@.len(),
        forall|i: int| 0 <= i < lit@.len() ==> !('A' <= #[trigger] lit@[i] && lit@[i] <= 'Z'),
    ensures
        b == (lowered(c@.subrange(lo as int, hi as int)) == lit@),
{
    let ghost s = c@.subrange(lo as int, hi as int);
    let n = lit.unicode_len();
    if hi - lo != n {
        return false;
    }
    let mut i: usize = 0;
    while i < n
        invariant
            i <= n,
            n == lit@.len(),
            hi - lo == n,
            lo <= hi <= c@.len(),
            s == c@.subrange(lo as int, hi as int),
            forall|j: int| 0 <= j < lit@.len() ==> !('A' <= #[trigger] lit@[j] && lit@[j] <= 'Z'),
            forall|j: int| 0 <= j < i ==> lower(#[trigger] s[j]) == lit@[j],
        decreases n - i,
    {
        let ch = c[lo + i];
        let l = lit.get_char(i);
        let same = ch == l || ('A' <= ch && ch <= 'Z' && (ch as u32) + 32 == (l as u32));
        assert(s[i as int] == ch);
        if !same {
            assert(lower(ch) != l);
            assert(lowered(s)[i as int] != lit@[i as int]);
            return false;
        }
        i += 1;
    }
    assert(lowered(s) =~= lit@);
    true
}

/// Whether the characters `lo..hi` are a mantissa.
fn is_mantissa(c: &Vec<char>, lo: usize, hi: usize) -> (b: bool)
    requires
        lo <= hi <= c@.len(),
    ensures
        b == mantissa(c@.subrange(lo as int, hi as int)),
{
    let ghost m = c@.subrange(lo as int, hi as int);
    let mut dots: usize = 0;
    let mut digits = false;
    let mut i = lo;
    while i < hi
        invariant
            lo <= i <= hi <= c@.len(),
            m == c@.subrange(lo as int, hi as int),
            forall|k: int| 0 <= k < i - lo ==> is_digit(#[trigger] m[k]) || m[k] == '.',
            dots == count_of(m.take(i - lo), '.'),
            dots <= 1,
            digits == exists|k: int| 0 <= k < i - lo && is_digit(#[trigger] m[k]),
        decreases hi - i,
    {
        let ch = c[i];
        let ghost k = i - lo;
        assert(m[k] == ch);
        assert(m.take(k + 1).drop_last() =~= m.take(k));
        if '0' <= ch && ch <= '9' {
            digits = true;
        } else if ch == '.' {
            if dots == 1 {
                proof {
                    lemma_count_grows(m, '.', k + 1);
                }
                return false;
            }
            dots = dots + 1;
        } else {
            return false;
        }
        i += 1;
    }
    assert(m.take(hi - lo) =~= m);
    digits
}

/// A longer prefix holds no fewer of `c`.
proof fn lemma_count_grows(s: Seq<char>, c: char, n: int)
    requires
        0 <= n <= s.len(),
    ensures
        count_of(s.take(n), c) <= count_of(s, c),
    decreases s.len() - n,
{
    if n < s.len() {
        lemma_count_grows(s, c, n + 1);
        assert(s.take(n + 1).drop_last() =~= s.take(n));
    }
    assert(s.take(s.len() as int) =~= s);
}

/// Whether the characters `lo..hi` are an exponent.
fn is_exponent(c: &Vec<char>, lo: usize, hi: usize) -> (b: bool)
    requires
        lo <= hi <= c@.len(),
    ensures
        b == exponent(c@.subrange(lo as int, hi as int)),
{
    let ghost x = c@.subrange(lo as int, hi as int);
    let start = if lo < hi && (c[lo] == '+' || c[lo] == '-') { lo + 1 } else { lo };
    assert(c@.subrange(start as int, hi as int) =~= unsigned_part(x));
    if start >= hi {
        return false;
    }
    let mut i = start;
    while i < hi
        invariant
            lo <= start <= i <= hi <= c@.len(),
            x == c@.subrange(lo as int, hi as int),
            unsigned_part(x) == c@.subrange(start as int, hi as int),
            forall|k: int| start <= k < i ==> is_digit(#[trigger] c@[k]),
        decreases hi - i,
    {
        let ch = c[i];
        if !('0' <= ch && ch <= '9') {
            assert(unsigned_part(x)[i - start] == ch);
            assert(!is_digit(unsigned_part(x)[i - start]));
            return false;
        }
        i += 1;
    }
    assert forall|k: int| 0 <= k < unsigned_part(x).len() implies is_digit(#[trigger] unsigned_part(
        x,
    )[k]) by {
        assert(unsigned_part(x)[k] == c@[start + k]);
    }
    true
}

/// Text that `f32` reads holds only ASCII letters, digits, signs and points.
pub(crate) proof fn lemma_float_text_chars(s: Seq<char>)
    requires
        float_text(s),
    ensures
        forall|j: int| 0 <= j < s.len() ==> #[trigger] plain_char(s[j]),
{
    let t = unsigned_part(s);
    let off: int = if s.len() > 0 && (s[0] == '+' || s[0] == '-') { 1 } else { 0 };
    assert(t =~= s.skip(off));
    reveal_strlit("inf");
    reveal_strlit("infinity");
    reveal_strlit("nan");
    if lowered(t) == "inf"@ || lowered(t) == "infinity"@ || lowered(t) == "nan"@ {
        assert("inf"@ =~= seq!['i', 'n', 'f']);
        assert("infinity"@ =~= seq!['i', 'n', 'f', 'i', 'n', 'i', 't', 'y']);
        assert("nan"@ =~= seq!['n', 'a', 'n']);
        let w = lowered(t);
        assert(forall|k: int| 0 <= k < w.len() ==> 'a' <= #[trigger] w[k] && w[k] <= 'z');
        assert forall|j: int| 0 <= j < s.len() implies #[trigger] plain_char(s[j]) by {
            if j >= off {
                let c = t[j - off];
                assert(c == s[j]);
                assert(lowered(t)[j - off] == lower(c));
                assert('a' <= lower(c) && lower(c) <= 'z');
            }
        }
    } else {
        assert(number(t));
        let p = choose|p: int|
            0 <= p <= t.len() && #[trigger] mantissa(t.take(p)) && (p == t.len() || ((t[p] == 'e'
                || t[p] == 'E') && exponent(t.skip(p + 1))));
        let m = t.take(p);
        assert forall|j: int| 0 <= j < s.len() implies #[trigger] plain_char(s[j]) by {
            if j >= off {
                let k = j - off;
                assert(t[k] == s[j]);
                if k < p {
                    assert(m[k] == t[k]);
                    assert(is_digit(m[k]) || m[k] == '.');
                } else if k > p {
                    let x = t.skip(p + 1);
                    assert(x[k - p - 1] == t[k]);
                    if k - p - 1 == 0 && (x[0] == '+' || x[0] == '-') {
                    } else {
                        let u = unsigned_part(x);
                        let o: int = if x.len() > 0 && (x[0] == '+' || x[0] == '-') { 1 } else { 0 };
                        assert(u =~= x.skip(o));
                        assert(u[k - p - 1 - o] == x[k - p - 1]);
                        assert(is_digit(u[k - p - 1 - o]));
                    }
                }
            }
        }
    }
}

/// Text that `f32` reads is never empty.
pub(crate) proof fn lemma_float_text_nonempty(s: Seq<char>)
    requires
        float_text(s),
    ensures
        s.len() > 0,
{
    reveal_strlit("inf");
    reveal_strlit("infinity");
    reveal_strlit("nan");
    if s.len() == 0 {
        let t = unsigned_part(s);
        assert(t =~= s);
        assert(lowered(t).len() == 0);
        if number(t) {
            let p = choose|p: int|
                0 <= p <= t.len() && #[trigger] mantissa(t.take(p)) && (p == t.len() || ((t[p] == 'e'
                    || t[p] == 'E') && exponent(t.skip(p + 1))));
            assert(t.take(p).len() == 0);
        }
    }
}

/// Whether the characters `lo..hi` are text `str::parse::<f32>` accepts.
pub fn is_float_text(c: &Vec<char>, lo: usize, hi: usize) -> (b: bool)
    requires
        lo <= hi <= c@.len(),
    ensures
        b == float_text(c@.subrange(lo as int, hi as int)),
{
    let ghost s = c@.subrange(lo as int, hi as int);
    let start = if lo < hi && (c[lo] == '+' || c[lo] == '-') { lo + 1 } else { lo };
    let ghost t = c@.subrange(start as int, hi as int);
    assert(t =~= unsigned_part(s));
    proof {
        reveal_strlit("inf");
        reveal_strlit("infinity");
        reveal_strlit("nan");
    }
    if eq_lower(c, start, hi, "inf") || eq_lower(c, start, hi, "infinity") || eq_lower(
        c,
        start,
        hi,
        "nan",
    ) {
        return true;
    }
    let mut p = start;
    while p < hi && c[p] != 'e' && c[p] != 'E'
        invariant
            start <= p <= hi <= c@.len(),
            forall|k: int| start <= k < p ==> c@[k] != 'e' && c@[k] != 'E',
        decreases hi - p,
    {
        p += 1;
    }
    let ghost q = p - start;
    assert(t.take(q) =~= c@.subrange(start as int, p as int));
    let m = is_mantissa(c, start, p);
    let ok = if p == hi {
        m
    } else {
        assert(t.skip(q + 1) =~= c@.subrange(p + 1, hi as int));
        m && is_exponent(c, p + 1, hi)
    };
    proof {
        if ok {
            assert(mantissa(t.take(q)));
        } else {
            assert forall|p2: int|
                0 <= p2 <= t.len() && #[trigger] mantissa(t.take(p2)) implies !(p2 == t.len() || ((t[p2]
                == 'e' || t[p2] == 'E') && exponent(t.skip(p2 + 1)))) by {
                if p2 > q {
                    assert(t.take(p2)[q] == t[q]);
                    assert(t[q] == 'e' || t[q] == 'E');
                } else if p2 < q {
                    assert(t[p2] == c@[start + p2]);
                } else {
                    assert(t.take(p2) == t.take(q));
                }
            }
        }
    }
    ok
}

} // verus!
