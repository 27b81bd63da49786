//! Character-level scanning primitives shared by the wire-format parsers:
//! bounded search, whitespace trimming, and string building, each with an
//! exact functional specification.
use vstd::prelude::*;

verus! {

/// Whitespace as `str::trim` removes it: the characters of Unicode's
/// White_Space property.
pub open spec fn is_space(c: char) -> bool {
    let u = c as u32;
    (9 <= u && u <= 13) || u == 32 || u == 0x85 || u == 0xa0 || u == 0x1680 || (0x2000 <= u && u
        <= 0x200a) || u == 0x2028 || u == 0x2029 || u == 0x202f || u == 0x205f || u == 0x3000
}

/// Exact executable counterpart of `is_space`.
pub fn is_space_char(c: char) -> (r: bool)
    ensures
        r == is_space(c),
{
    let u = c as u32;
    (9 <= u && u <= 13) || u == 32 || u == 0x85 || u == 0xa0 || u == 0x1680 || (0x2000 <= u && u
        <= 0x200a) || u == 0x2028 || u == 0x2029 || u == 0x202f || u == 0x205f || u == 0x3000
}

/// First index `j` in `[i, end)` with `s[j] == c`, else `end`.
pub open spec fn find_in(s: Seq<char>, c: char, i: int, end: int) -> int
    decreases end - i,
{
    if i < 0 || i >= end || i >= s.len() {
        end
    } else if s[i] == c {
        i
    } else {
        find_in(s, c, i + 1, end)
    }
}

/// `find_in`, clamped into `[i, end]`; equal to it whenever
/// `0 <= i <= end <= s.len()`, and safe to recurse past in any case.
pub open spec fn find_in_c(s: Seq<char>, c: char, i: int, end: int) -> int {
    let j = find_in(s, c, i, end);
    if j < i {
        i
    } else if j > end {
        end
    } else {
        j
    }
}

/// First index `j` in `[i, end)` with `s[j]` not whitespace, else `end`.
pub open spec fn skip_ws(s: Seq<char>, i: int, end: int) -> int
    decreases end - i,
{
    if i < 0 || i >= end || i >= s.len() {
        end
    } else if !is_space(s[i]) {
        i
    } else {
        skip_ws(s, i + 1, end)
    }
}

/// `skip_ws`, clamped into `[i, end]`.
pub open spec fn skip_ws_c(s: Seq<char>, i: int, end: int) -> int {
    let j = skip_ws(s, i, end);
    if j < i {
        i
    } else if j > end {
        end
    } else {
        j
    }
}

/// Largest `j` in `[i, end]` such that `j == i` or `s[j - 1]` is not
/// whitespace: the exclusive end of the range after right-trimming.
pub open spec fn trim_back(s: Seq<char>, i: int, end: int) -> int
    decreases end - i,
{
    if end <= i {
        i
    } else if is_space(s[end - 1]) {
        trim_back(s, i, end - 1)
    } else {
        end
    }
}

/// The contents of `s[i..end)` with surrounding whitespace removed.
pub open spec fn trimmed(s: Seq<char>, i: int, end: int) -> Seq<char> {
    let a = skip_ws_c(s, i, end);
    s.subrange(a, trim_back(s, a, end))
}

/// `find_in` stays inside its range and points at the first occurrence.
pub proof fn lemma_find_in_props(s: Seq<char>, c: char, i: int, end: int)
    requires
        0 <= i <= end <= s.len(),
    ensures
        i <= find_in(s, c, i, end) <= end,
        find_in(s, c, i, end) < end ==> s[find_in(s, c, i, end)] == c,
        forall|k: int| i <= k < find_in(s, c, i, end) ==> s[k] != c,
        find_in(s, c, i, end) == find_in_c(s, c, i, end),
    decreases end - i,
{
    if i < end && s[i] != c {
        lemma_find_in_props(s, c, i + 1, end);
    }
}

/// Any position that is preceded only by non-matches and holds a match (or
/// is the end of the range) is where `find_in` lands.
pub proof fn lemma_find_in_at(s: Seq<char>, c: char, i: int, end: int, j: int)
    requires
        0 <= i <= j <= end <= s.len(),
        forall|k: int| i <= k < j ==> s[k] != c,
        j == end || s[j] == c,
    ensures
        find_in(s, c, i, end) == j,
    decreases j - i,
{
    if i < j {
        lemma_find_in_at(s, c, i + 1, end, j);
    }
}

/// `skip_ws` stays inside its range and points at the first non-blank.
pub proof fn lemma_skip_ws_props(s: Seq<char>, i: int, end: int)
    requires
        0 <= i <= end <= s.len(),
    ensures
        i <= skip_ws(s, i, end) <= end,
        skip_ws(s, i, end) < end ==> !is_space(s[skip_ws(s, i, end)]),
        forall|k: int| i <= k < skip_ws(s, i, end) ==> is_space(s[k]),
        skip_ws(s, i, end) == skip_ws_c(s, i, end),
    decreases end - i,
{
    if i < end && is_space(s[i]) {
        lemma_skip_ws_props(s, i + 1, end);
    }
}

/// As `lemma_find_in_at`, for `skip_ws`.
pub proof fn lemma_skip_ws_at(s: Seq<char>, i: int, end: int, j: int)
    requires
        0 <= i <= j <= end <= s.len(),
        forall|k: int| i <= k < j ==> is_space(s[k]),
        j == end || !is_space(s[j]),
    ensures
        skip_ws(s, i, end) == j,
    decreases j - i,
{
    if i < j {
        lemma_skip_ws_at(s, i + 1, end, j);
    }
}

/// `trim_back` stays inside its range, drops only trailing whitespace, and
/// never ends on whitespace.
pub proof fn lemma_trim_back_props(s: Seq<char>, i: int, end: int)
    requires
        0 <= i <= end <= s.len(),
    ensures
        i <= trim_back(s, i, end) <= end,
        trim_back(s, i, end) > i ==> !is_space(s[trim_back(s, i, end) - 1]),
        forall|k: int| trim_back(s, i, end) <= k < end ==> is_space(s[k]),
    decreases end - i,
{
    if end > i && is_space(s[end - 1]) {
        lemma_trim_back_props(s, i, end - 1);
    }
}

/// As `lemma_find_in_at`, for `trim_back`.
pub proof fn lemma_trim_back_at(s: Seq<char>, i: int, end: int, j: int)
    requires
        0 <= i <= j <= end <= s.len(),
        forall|k: int| j <= k < end ==> is_space(s[k]),
        j == i || !is_space(s[j - 1]),
    ensures
        trim_back(s, i, end) == j,
    decreases end - j,
{
    if j < end {
        lemma_trim_back_at(s, i, end - 1, j);
    }
}

/// `skip_ws` reads only the characters of its range: over two ranges with
/// the same contents it advances by the same amount.
pub proof fn lemma_skip_ws_shift(s1: Seq<char>, i1: int, s2: Seq<char>, i2: int, len: int)
    requires
        0 <= i1 && i1 + len <= s1.len(),
        0 <= i2 && i2 + len <= s2.len(),
        0 <= len,
        forall|k: int| 0 <= k < len ==> (#[trigger] s1[i1 + k]) == s2[i2 + k],
    ensures
        skip_ws(s1, i1, i1 + len) - i1 == skip_ws(s2, i2, i2 + len) - i2,
    decreases len,
{
    if len > 0 {
        assert(s1[i1 + 0] == s2[i2 + 0]);
        if is_space(s1[i1]) {
            assert forall|k: int| 0 <= k < len - 1 implies (#[trigger] s1[i1 + 1 + k]) == s2[i2 + 1
                + k] by {
                assert(s1[i1 + (1 + k)] == s2[i2 + (1 + k)]);
            }
            lemma_skip_ws_shift(s1, i1 + 1, s2, i2 + 1, len - 1);
        }
    }
}

/// As `lemma_skip_ws_shift`, for `trim_back`.
pub proof fn lemma_trim_back_shift(s1: Seq<char>, i1: int, s2: Seq<char>, i2: int, len: int)
    requires
        0 <= i1 && i1 + len <= s1.len(),
        0 <= i2 && i2 + len <= s2.len(),
        0 <= len,
        forall|k: int| 0 <= k < len ==> (#[trigger] s1[i1 + k]) == s2[i2 + k],
    ensures
        trim_back(s1, i1, i1 + len) - i1 == trim_back(s2, i2, i2 + len) - i2,
    decreases len,
{
    if len > 0 {
        assert(s1[i1 + (len - 1)] == s2[i2 + (len - 1)]);
        if is_space(s1[i1 + len - 1]) {
            lemma_trim_back_shift(s1, i1, s2, i2, len - 1);
        }
    }
}

/// As `lemma_skip_ws_shift`, for `trimmed`: two ranges with the same
/// contents trim to the same value.
pub proof fn lemma_trimmed_shift(s1: Seq<char>, i1: int, s2: Seq<char>, i2: int, len: int)
    requires
        0 <= i1 && i1 + len <= s1.len(),
        0 <= i2 && i2 + len <= s2.len(),
        0 <= len,
        forall|k: int| 0 <= k < len ==> (#[trigger] s1[i1 + k]) == s2[i2 + k],
    ensures
        trimmed(s1, i1, i1 + len) == trimmed(s2, i2, i2 + len),
{
    lemma_skip_ws_props(s1, i1, i1 + len);
    lemma_skip_ws_props(s2, i2, i2 + len);
    lemma_skip_ws_shift(s1, i1, s2, i2, len);
    let d = skip_ws(s1, i1, i1 + len) - i1;
    assert forall|k: int| 0 <= k < len - d implies (#[trigger] s1[i1 + d + k]) == s2[i2 + d
        + k] by {
        assert(s1[i1 + (d + k)] == s2[i2 + (d + k)]);
    }
    let a1 = skip_ws(s1, i1, i1 + len);
    let a2 = skip_ws(s2, i2, i2 + len);
    lemma_trim_back_shift(s1, a1, s2, a2, i1 + len - a1);
    lemma_trim_back_props(s1, a1, i1 + len);
    lemma_trim_back_props(s2, a2, i2 + len);
    let b1 = trim_back(s1, a1, i1 + len);
    let b2 = trim_back(s2, a2, i2 + len);
    assert forall|k: int| 0 <= k < b1 - a1 implies s1.subrange(a1, b1)[k] == s2.subrange(
        a2,
        b2,
    )[k] by {
        assert(s1[i1 + (d + k)] == s2[i2 + (d + k)]);
    }
    assert(trimmed(s1, i1, i1 + len) =~= trimmed(s2, i2, i2 + len));
}

/// An ASCII letter folded to lower case; any other character unchanged.
pub open spec fn lower(c: char) -> char {
    let u = c as u32;
    if 65 <= u && u <= 90 {
        ((u + 32) as u8) as char
    } else {
        c
    }
}

/// Whether two texts agree up to ASCII case.
pub open spec fn eq_ci(a: Seq<char>, b: Seq<char>) -> bool {
    a.len() == b.len() && (forall|k: int| 0 <= k < a.len() ==> (#[trigger] lower(a[k])) == lower(
        b[k],
    ))
}

/// Exact executable counterpart of `lower`.
pub fn lower_char(c: char) -> (r: char)
    ensures
        r == lower(c),
{
    let u = c as u32;
    if 65 <= u && u <= 90 {
        ((u + 32) as u8) as char
    } else {
        c
    }
}

/// Whether `s[lo..hi)` holds the characters of `t`, up to ASCII case.
pub fn range_eq_ci(s: &str, lo: usize, hi: usize, t: &str) -> (r: bool)
    requires
        lo <= hi <= s@.len(),
    ensures
        r == eq_ci(s@.subrange(lo as int, hi as int), t@),
{
    let n = t.unicode_len();
    if hi - lo != n {
        return false;
    }
    let mut i: usize = 0;
    while i < n
        invariant
            i <= n,
            lo <= hi <= s@.len(),
            hi - lo == n,
            n == t@.len(),
            forall|k: int| 0 <= k < i ==> lower(s@[lo + k]) == lower(t@[k]),
        decreases n - i,
    {
        if lower_char(s.get_char(lo + i)) != lower_char(t.get_char(i)) {
            assert(lower(s@.subrange(lo as int, hi as int)[i as int]) != lower(t@[i as int]));
            return false;
        }
        i += 1;
    }
    proof {
        assert forall|k: int| 0 <= k < n implies lower(
            s@.subrange(lo as int, hi as int)[k],
        ) == lower(t@[k]) by {
            assert(lower(s@[lo + k]) == lower(t@[k]));
        }
    }
    true
}

/// Whether two string slices agree up to ASCII case.
pub fn str_eq_ci(a: &str, b: &str) -> (r: bool)
    ensures
        r == eq_ci(a@, b@),
{
    let n = a.unicode_len();
    if n != b.unicode_len() {
        return false;
    }
    let mut i: usize = 0;
    while i < n
        invariant
            i <= n,
            n == a@.len(),
            n == b@.len(),
            forall|k: int| 0 <= k < i ==> lower(a@[k]) == lower(b@[k]),
        decreases n - i,
    {
        if lower_char(a.get_char(i)) != lower_char(b.get_char(i)) {
            return false;
        }
        i += 1;
    }
    true
}

/// Exact executable counterpart of `find_in`.
pub fn find_in_str(s: &str, c: char, from: usize, end: usize) -> (r: usize)
    requires
        from <= end <= s@.len(),
    ensures
        r as int == find_in(s@, c, from as int, end as int),
        from <= r <= end,
        r < end ==> s@[r as int] == c,
        forall|k: int| from <= k < r ==> s@[k] != c,
{
    let ghost gs = s@;
    let mut i: usize = from;
    while i < end
        invariant
            from <= i <= end <= gs.len(),
            s@ == gs,
            forall|k: int| from <= k < i ==> gs[k] != c,
        decreases end - i,
    {
        if s.get_char(i) == c {
            proof {
                lemma_find_in_at(gs, c, from as int, end as int, i as int);
            }
            return i;
        }
        i += 1;
    }
    proof {
        lemma_find_in_at(gs, c, from as int, end as int, end as int);
    }
    end
}

/// Exact executable counterpart of `skip_ws`.
pub fn skip_ws_str(s: &str, from: usize, end: usize) -> (r: usize)
    requires
        from <= end <= s@.len(),
    ensures
        r as int == skip_ws(s@, from as int, end as int),
        from <= r <= end,
        r < end ==> !is_space(s@[r as int]),
        forall|k: int| from <= k < r ==> is_space(s@[k]),
{
    let ghost gs = s@;
    let mut i: usize = from;
    while i < end
        invariant
            from <= i <= end <= gs.len(),
            s@ == gs,
            forall|k: int| from <= k < i ==> is_space(gs[k]),
        decreases end - i,
    {
        if !is_space_char(s.get_char(i)) {
            proof {
                lemma_skip_ws_at(gs, from as int, end as int, i as int);
            }
            return i;
        }
        i += 1;
    }
    proof {
        lemma_skip_ws_at(gs, from as int, end as int, end as int);
    }
    end
}

/// Exact executable counterpart of `trim_back`.
pub fn trim_back_str(s: &str, from: usize, end: usize) -> (r: usize)
    requires
        from <= end <= s@.len(),
    ensures
        r as int == trim_back(s@, from as int, end as int),
        from <= r <= end,
{
    let ghost gs = s@;
    let mut j: usize = end;
    while j > from
        invariant
            from <= j <= end <= gs.len(),
            s@ == gs,
            forall|k: int| j <= k < end ==> is_space(gs[k]),
        decreases j,
    {
        if !is_space_char(s.get_char(j - 1)) {
            proof {
                lemma_trim_back_at(gs, from as int, end as int, j as int);
            }
            return j;
        }
        j -= 1;
    }
    proof {
        lemma_trim_back_at(gs, from as int, end as int, from as int);
    }
    from
}

/// The contents of `s[from..end)` without surrounding whitespace, as an
/// owned string.
pub fn trimmed_str(s: &str, from: usize, end: usize) -> (r: String)
    requires
        from <= end <= s@.len(),
    ensures
        r@ == trimmed(s@, from as int, end as int),
{
    let a = skip_ws_str(s, from, end);
    let b = trim_back_str(s, a, end);
    s.substring_char(a, b).to_owned()
}

/// Relies on `String::push`: appends exactly the given character.
#[verifier::external_body]
pub(crate) fn push_char(s: &mut String, c: char)
    ensures
        final(s)@ == old(s)@.push(c),
{
    s.push(c);
}

/// Whether two string slices hold the same characters.
pub fn str_eq(a: &str, b: &str) -> (r: bool)
    ensures
        r == (a@ == b@),
{
    let n = a.unicode_len();
    if n != b.unicode_len() {
        return false;
    }
    let mut i: usize = 0;
    while i < n
        invariant
            i <= n,
            n == a@.len(),
            n == b@.len(),
            forall|k: int| 0 <= k < i ==> a@[k] == b@[k],
        decreases n - i,
    {
        if a.get_char(i) != b.get_char(i) {
            return false;
        }
        i += 1;
    }
    proof {
        assert(a@ =~= b@);
    }
    true
}

/// Whether `s[lo..hi)` holds exactly the characters of `t`.
pub fn range_eq(s: &str, lo: usize, hi: usize, t: &str) -> (r: bool)
    requires
        lo <= hi <= s@.len(),
    ensures
        r == (s@.subrange(lo as int, hi as int) == t@),
{
    let n = t.unicode_len();
    if hi - lo != n {
        return false;
    }
    let mut i: usize = 0;
    while i < n
        invariant
            i <= n,
            lo <= hi <= s@.len(),
            hi - lo == n,
            n == t@.len(),
            forall|k: int| 0 <= k < i ==> s@[lo + k] == t@[k],
        decreases n - i,
    {
        if s.get_char(lo + i) != t.get_char(i) {
            assert(s@.subrange(lo as int, hi as int)[i as int] != t@[i as int]);
            return false;
        }
        i += 1;
    }
    proof {
        assert(s@.subrange(lo as int, hi as int) =~= t@);
    }
    true
}

} // verus!
