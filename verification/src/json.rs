//! The region-info wire format: a JSON document
//! `{"id": ..., "name": ..., "view_year_range": {"start": ..., "end": ...}}`
//! in which the two year fields may be JSON integers or strings of digits.
//!
//! Members may come in any order; each of the three required members at
//! most once, and all of them present. Members under other names are
//! checked for JSON well-formedness and discarded. Strings decode the
//! standard escapes, `\uXXXX` and surrogate pairs included.
use crate::error::Error;
use crate::text::{push_char, range_eq, skip_ws_c, skip_ws_str, str_eq};
use vstd::arithmetic::div_mod::lemma_fundamental_div_mod;
use vstd::prelude::*;

verus! {

broadcast use vstd::string::group_string_axioms;

/// The inclusive span of calendar years for which a region has data. No
/// ordering of `start` and `end` is checked or required.
#[derive(Debug, Clone, Copy, PartialEq, Eq, Structural)]
pub struct ViewYearRange {
    pub start: i64,
    pub end: i64,
}

/// The mathematical value of a `RegionInfo`.
pub struct RegionInfoV {
    pub identifier: Seq<char>,
    pub name: Seq<char>,
    pub start: int,
    pub end: int,
}

/// Descriptive metadata of one region.
#[derive(Debug, Clone, PartialEq, Eq)]
pub struct RegionInfo {
    pub identifier: String,
    pub name: String,
    pub view_year_range: ViewYearRange,
}

impl View for RegionInfo {
    type V = RegionInfoV;

    open spec fn view(&self) -> RegionInfoV {
        RegionInfoV {
            identifier: self.identifier@,
            name: self.name@,
            start: self.view_year_range.start as int,
            end: self.view_year_range.end as int,
        }
    }
}

/// Whether position `i` exists and holds the character `c`.
pub open spec fn at(s: Seq<char>, i: int, c: char) -> bool {
    0 <= i < s.len() && s[i] == c
}

/// Skip whitespace from `i` to the end of the input.
pub open spec fn ws(s: Seq<char>, i: int) -> int {
    skip_ws_c(s, i, s.len() as int)
}

/// The next position strictly after `i`, clamped to one past the end of
/// the input: keeps a scan well-founded whatever a sub-parser returned.
pub open spec fn step_to(s: Seq<char>, i: int, j: int) -> int {
    if j <= i {
        i + 1
    } else if j > s.len() + 1 {
        s.len() as int + 1
    } else {
        j
    }
}

/// The value of a hexadecimal digit character, else a negative number.
pub open spec fn hex_char_val(c: char) -> int {
    let u = c as u32;
    if 48 <= u && u <= 57 {
        u - 48
    } else if 65 <= u && u <= 70 {
        u - 55
    } else if 97 <= u && u <= 102 {
        u - 87
    } else {
        -1
    }
}

/// The value of four hexadecimal digits at `i`, else a negative number.
pub open spec fn hex4_at(s: Seq<char>, i: int) -> int {
    if 0 <= i && i + 4 <= s.len() && hex_char_val(s[i]) >= 0 && hex_char_val(s[i + 1]) >= 0
        && hex_char_val(s[i + 2]) >= 0 && hex_char_val(s[i + 3]) >= 0 {
        hex_char_val(s[i]) * 4096 + hex_char_val(s[i + 1]) * 256 + hex_char_val(s[i + 2]) * 16
            + hex_char_val(s[i + 3])
    } else {
        -1
    }
}

/// A `\u` escape's payload at `i`: four hexadecimal digits, and for a
/// high surrogate a second `\uXXXX` holding the low surrogate; the
/// decoded character and the position after it. A lone surrogate is
/// malformed.
pub open spec fn unicode_escape_at(s: Seq<char>, i: int) -> Option<(char, int)> {
    let u = hex4_at(s, i);
    if u < 0 {
        None
    } else if u < 0xd800 || u > 0xdfff {
        Some((((u as u32) as char), i + 4))
    } else if u <= 0xdbff {
        if at(s, i + 4, '\\') && at(s, i + 5, 'u') {
            let lo = hex4_at(s, i + 6);
            if 0xdc00 <= lo && lo <= 0xdfff {
                Some(((((0x10000 + (u - 0xd800) * 0x400 + (lo - 0xdc00)) as u32) as char), i + 10))
            } else {
                None
            }
        } else {
            None
        }
    } else {
        None
    }
}

/// A string escape at `i` (the position after the backslash): the decoded
/// character and the position after the escape.
pub open spec fn escape_at(s: Seq<char>, i: int) -> Option<(char, int)> {
    if i < 0 || i >= s.len() {
        None
    } else {
        let c = s[i];
        if c == '"' {
            Some(('"', i + 1))
        } else if c == '\\' {
            Some(('\\', i + 1))
        } else if c == '/' {
            Some(('/', i + 1))
        } else if c == 'b' {
            Some(('\u{8}', i + 1))
        } else if c == 'f' {
            Some(('\u{c}', i + 1))
        } else if c == 'n' {
            Some(('\n', i + 1))
        } else if c == 'r' {
            Some(('\r', i + 1))
        } else if c == 't' {
            Some(('\t', i + 1))
        } else if c == 'u' {
            unicode_escape_at(s, i + 1)
        } else {
            None
        }
    }
}

/// The characters of a JSON string from just after its opening quote:
/// decoded escapes and plain characters up to the closing quote, with the
/// position after it. An unterminated string, an unknown escape or a raw
/// control character is malformed.
pub open spec fn string_chars(s: Seq<char>, i: int) -> Option<(Seq<char>, int)>
    decreases s.len() - i,
{
    if i < 0 || i >= s.len() {
        None
    } else if s[i] == '"' {
        Some((Seq::empty(), i + 1))
    } else if s[i] == '\\' {
        match escape_at(s, i + 1) {
            None => None,
            Some((c, j)) => match string_chars(s, j) {
                None => None,
                Some((cs, e)) => Some((seq![c] + cs, e)),
            },
        }
    } else if (s[i] as u32) < 32 {
        None
    } else {
        match string_chars(s, i + 1) {
            None => None,
            Some((cs, e)) => Some((seq![s[i]] + cs, e)),
        }
    }
}

/// A JSON string at `i`: the opening quote, then its characters.
pub open spec fn string_at(s: Seq<char>, i: int) -> Option<(Seq<char>, int)> {
    if !at(s, i, '"') {
        None
    } else {
        string_chars(s, i + 1)
    }
}

/// Whether `c` is a decimal digit.
pub open spec fn digit_char(c: char) -> bool {
    48 <= c as u32 <= 57
}

/// The numeric value of a digit character.
pub open spec fn digit_val(c: char) -> int {
    c as u32 - 48
}

/// First index at or after `i` that does not hold a digit, else the length.
pub open spec fn digits_end(s: Seq<char>, i: int) -> int
    decreases s.len() - i,
{
    if i < 0 || i >= s.len() || !digit_char(s[i]) {
        i
    } else {
        digits_end(s, i + 1)
    }
}

/// The value of the digit run `s[i..end)`, most significant first.
pub open spec fn digits_val(s: Seq<char>, i: int, end: int) -> int
    decreases end - i,
{
    if end <= i {
        0
    } else {
        digits_val(s, i, end - 1) * 10 + digit_val(s[end - 1])
    }
}

/// `digits_end` stays at or after `i` and delimits exactly the digit run.
pub proof fn lemma_digits_end_props(s: Seq<char>, i: int)
    requires
        0 <= i <= s.len(),
    ensures
        i <= digits_end(s, i) <= s.len(),
        digits_end(s, i) < s.len() ==> !digit_char(s[digits_end(s, i)]),
        forall|k: int| i <= k < digits_end(s, i) ==> digit_char(s[k]),
    decreases s.len() - i,
{
    if i < s.len() && digit_char(s[i]) {
        lemma_digits_end_props(s, i + 1);
    }
}

/// A digit run's value is non-negative and grows with its length.
pub proof fn lemma_digits_val_mono(s: Seq<char>, i: int, e1: int, e2: int)
    requires
        i <= e1 <= e2,
        forall|k: int| i <= k < e2 ==> digit_char(#[trigger] s[k]),
    ensures
        0 <= digits_val(s, i, e1) <= digits_val(s, i, e2),
    decreases e2 - i,
{
    if e1 == e2 {
        lemma_digits_val_nonneg(s, i, e1);
    } else {
        lemma_digits_val_mono(s, i, e1, e2 - 1);
        assert(digits_val(s, i, e2 - 1) * 10 >= digits_val(s, i, e2 - 1)) by (nonlinear_arith)
            requires
                digits_val(s, i, e2 - 1) >= 0,
        ;
    }
}

proof fn lemma_digits_val_nonneg(s: Seq<char>, i: int, end: int)
    requires
        forall|k: int| i <= k < end ==> digit_char(#[trigger] s[k]),
    ensures
        digits_val(s, i, end) >= 0,
    decreases end - i,
{
    if end > i {
        lemma_digits_val_nonneg(s, i, end - 1);
        assert(digits_val(s, i, end - 1) * 10 >= 0) by (nonlinear_arith)
            requires
                digits_val(s, i, end - 1) >= 0,
        ;
    }
}

/// A JSON integer at `i`: an optional minus sign and a digit run without a
/// redundant leading zero, with a value that must fit an `i64`.
pub open spec fn int_at(s: Seq<char>, i: int) -> Option<(int, int)> {
    let neg = at(s, i, '-');
    let d0 = if neg {
        i + 1
    } else {
        i
    };
    let e = digits_end(s, d0);
    if e <= d0 || !(0 <= d0) {
        None
    } else if e - d0 > 1 && at(s, d0, '0') {
        None
    } else {
        let m = digits_val(s, d0, e);
        let v = if neg {
            -m
        } else {
            m
        };
        if v < i64::MIN as int || v > i64::MAX as int {
            None
        } else {
            Some((v, e))
        }
    }
}

/// The integer a whole string holds, by the rules of parsing an `i64` from
/// text: an optional sign, then only digits (leading zeros allowed), with a
/// value that must fit an `i64`.
pub open spec fn str_int(c: Seq<char>) -> Option<int> {
    let signed = c.len() > 0 && (c[0] == '-' || c[0] == '+');
    let neg = c.len() > 0 && c[0] == '-';
    let d0: int = if signed {
        1
    } else {
        0
    };
    if c.len() <= d0 {
        None
    } else if digits_end(c, d0) < c.len() {
        None
    } else {
        let m = digits_val(c, d0, c.len() as int);
        let v = if neg {
            -m
        } else {
            m
        };
        if v < i64::MIN as int || v > i64::MAX as int {
            None
        } else {
            Some(v)
        }
    }
}

/// A digit run's value depends only on its characters: over two ranges
/// with the same contents it is the same.
proof fn lemma_digits_val_shift(s1: Seq<char>, i1: int, s2: Seq<char>, i2: int, len: int)
    requires
        0 <= len,
        forall|k: int| 0 <= k < len ==> (#[trigger] s1[i1 + k]) == s2[i2 + k],
    ensures
        digits_val(s1, i1, i1 + len) == digits_val(s2, i2, i2 + len),
    decreases len,
{
    if len > 0 {
        lemma_digits_val_shift(s1, i1, s2, i2, len - 1);
        assert(s1[i1 + (len - 1)] == s2[i2 + (len - 1)]);
    }
}

/// The two wire encodings of a year agree: where a JSON integer parses to
/// a value, a JSON string holding exactly the same text parses to the
/// same value. A document that renders a year field as `"2017"` therefore
/// means the same as one that renders it as `2017`.
pub proof fn lemma_year_encodings_agree(s: Seq<char>, i: int)
    requires
        0 <= i <= s.len(),
    ensures
        int_at(s, i) matches Some(ve) ==> str_int(s.subrange(i, ve.1)) == Some(ve.0),
{
    if int_at(s, i) is Some {
        let neg = at(s, i, '-');
        let d0 = if neg {
            i + 1
        } else {
            i
        };
        let e = digits_end(s, d0);
        lemma_digits_end_props(s, d0);
        let c = s.subrange(i, e);
        let d0c: int = if neg {
            1
        } else {
            0
        };
        assert(c[0] == s[i]);
        assert forall|k: int| d0c <= k < c.len() implies digit_char(#[trigger] c[k]) by {
            assert(c[k] == s[i + k]);
            assert(d0 <= i + k < e);
        }
        lemma_digits_end_at(c, d0c, c.len() as int);
        assert forall|k: int| 0 <= k < e - d0 implies (#[trigger] c[d0c + k]) == s[d0 + k] by {
            assert(c[d0c + k] == s[i + (d0c + k)]);
        }
        lemma_digits_val_shift(c, d0c, s, d0, e - d0);
        assert(digits_val(c, d0c, c.len() as int) == digits_val(s, d0, e));
    }
}

/// A year value at `i`: either a JSON integer, or a JSON string whose whole
/// contents are such an integer.
pub open spec fn year_at(s: Seq<char>, i: int) -> Option<(int, int)> {
    if at(s, i, '"') {
        match string_at(s, i) {
            None => None,
            Some((c, n)) => match str_int(c) {
                None => None,
                Some(v) => Some((v, n)),
            },
        }
    } else {
        int_at(s, i)
    }
}

/// Whether the word `w` stands at `i`.
pub open spec fn kw_at(s: Seq<char>, i: int, w: Seq<char>) -> bool {
    0 <= i && i + w.len() <= s.len() && s.subrange(i, i + w.len() as int) == w
}

/// A JSON number at `i`, by the JSON grammar (integer part without a
/// redundant leading zero, optional fraction and exponent): the position
/// after it. Only its extent matters: a value in a discarded member is
/// checked, not interpreted.
pub open spec fn skip_number(s: Seq<char>, i: int) -> Option<int> {
    let d0 = if at(s, i, '-') {
        i + 1
    } else {
        i
    };
    let e1 = digits_end(s, d0);
    if e1 <= d0 {
        None
    } else if e1 - d0 > 1 && at(s, d0, '0') {
        None
    } else {
        let f = if at(s, e1, '.') {
            let e2 = digits_end(s, e1 + 1);
            if e2 <= e1 + 1 {
                None
            } else {
                Some(e2)
            }
        } else {
            Some(e1)
        };
        match f {
            None => None,
            Some(p) => {
                if at(s, p, 'e') || at(s, p, 'E') {
                    let x0 = if at(s, p + 1, '+') || at(s, p + 1, '-') {
                        p + 2
                    } else {
                        p + 1
                    };
                    let e3 = digits_end(s, x0);
                    if e3 <= x0 {
                        None
                    } else {
                        Some(e3)
                    }
                } else {
                    Some(p)
                }
            },
        }
    }
}

/// A JSON scalar at `i`: a keyword or a number.
pub open spec fn skip_scalar(s: Seq<char>, i: int) -> Option<int> {
    if kw_at(s, i, "true"@) {
        Some(i + 4)
    } else if kw_at(s, i, "false"@) {
        Some(i + 5)
    } else if kw_at(s, i, "null"@) {
        Some(i + 4)
    } else {
        skip_number(s, i)
    }
}

/// Any JSON value at `i`, by extent alone: what a discarded member holds
/// is checked for well-formedness, nothing more.
pub open spec fn skip_value(s: Seq<char>, i: int) -> Option<int>
    decreases s.len() + 1 - i, 0int,
{
    if i < 0 || i >= s.len() {
        None
    } else if s[i] == '"' {
        match string_chars(s, i + 1) {
            None => None,
            Some((c, e)) => Some(e),
        }
    } else if s[i] == '{' {
        let j = ws(s, i + 1);
        if at(s, j, '}') {
            Some(j + 1)
        } else {
            skip_members(s, j)
        }
    } else if s[i] == '[' {
        let j = ws(s, i + 1);
        if at(s, j, ']') {
            Some(j + 1)
        } else {
            skip_elements(s, j)
        }
    } else {
        skip_scalar(s, i)
    }
}

/// The members of a discarded object, from a key position.
pub open spec fn skip_members(s: Seq<char>, i: int) -> Option<int>
    decreases s.len() + 1 - i, 1int,
{
    if !at(s, i, '"') {
        None
    } else {
        match string_chars(s, i + 1) {
            None => None,
            Some((k, p)) => {
                let c = ws(s, step_to(s, i, p));
                if !at(s, c, ':') {
                    None
                } else {
                    let v0 = ws(s, c + 1);
                    match skip_value(s, v0) {
                        None => None,
                        Some(e) => {
                            let q = ws(s, step_to(s, i, e));
                            if at(s, q, ',') {
                                skip_members(s, ws(s, q + 1))
                            } else if at(s, q, '}') {
                                Some(q + 1)
                            } else {
                                None
                            }
                        },
                    }
                }
            },
        }
    }
}

/// The elements of a discarded array, from a value position.
pub open spec fn skip_elements(s: Seq<char>, i: int) -> Option<int>
    decreases s.len() + 1 - i, 1int,
{
    if i > s.len() {
        None
    } else {
        match skip_value(s, i) {
            None => None,
            Some(e) => {
                let q = ws(s, step_to(s, i, e));
                if at(s, q, ',') {
                    skip_elements(s, ws(s, q + 1))
                } else if at(s, q, ']') {
                    Some(q + 1)
                } else {
                    None
                }
            },
        }
    }
}

/// The members of the year-range object, from a position that must hold a
/// key, given which slots are already filled. A repeated known key is
/// malformed; a member under any other name is discarded. Ends at the
/// closing `}` with both slots filled, else the document is malformed.
pub open spec fn range_members(s: Seq<char>, i: int, st: Option<int>, en: Option<int>) -> Option<
    ((int, int), int),
>
    decreases s.len() + 1 - i, 0int,
{
    match string_at(s, i) {
        None => None,
        Some((key, p)) => {
            let c = ws(s, step_to(s, i, p));
            if !at(s, c, ':') {
                None
            } else {
                let v0 = ws(s, c + 1);
                if key == "start"@ {
                    if st is Some {
                        None
                    } else {
                        match year_at(s, v0) {
                            None => None,
                            Some((v, p2)) => range_members_rest(s, step_to(s, i, p2), Some(v), en),
                        }
                    }
                } else if key == "end"@ {
                    if en is Some {
                        None
                    } else {
                        match year_at(s, v0) {
                            None => None,
                            Some((v, p2)) => range_members_rest(s, step_to(s, i, p2), st, Some(v)),
                        }
                    }
                } else {
                    match skip_value(s, v0) {
                        None => None,
                        Some(e) => range_members_rest(s, step_to(s, i, e), st, en),
                    }
                }
            }
        },
    }
}

/// After one member of the year-range object: either a comma and a further
/// member, or the closing brace.
pub open spec fn range_members_rest(s: Seq<char>, i: int, st: Option<int>, en: Option<int>) -> Option<
    ((int, int), int),
>
    decreases s.len() + 1 - i, 1int,
{
    let q = ws(s, i);
    if at(s, q, ',') {
        range_members(s, ws(s, q + 1), st, en)
    } else if at(s, q, '}') {
        if st is Some && en is Some {
            Some(((st.unwrap(), en.unwrap()), q + 1))
        } else {
            None
        }
    } else {
        None
    }
}

/// The members of the top-level object, from a position that must hold a
/// key: `id` and `name` take string values, `view_year_range` takes the
/// year-range object. A repeated known key is malformed; a member under
/// any other name is discarded.
pub open spec fn top_members(
    s: Seq<char>,
    i: int,
    idv: Option<Seq<char>>,
    nm: Option<Seq<char>>,
    rg: Option<(int, int)>,
) -> Option<(RegionInfoV, int)>
    decreases s.len() + 1 - i, 0int,
{
    match string_at(s, i) {
        None => None,
        Some((key, p)) => {
            let c = ws(s, step_to(s, i, p));
            if !at(s, c, ':') {
                None
            } else {
                let v0 = ws(s, c + 1);
                if key == "id"@ {
                    if idv is Some {
                        None
                    } else {
                        match string_at(s, v0) {
                            None => None,
                            Some((v, p2)) => top_members_rest(s, step_to(s, i, p2), Some(v), nm, rg),
                        }
                    }
                } else if key == "name"@ {
                    if nm is Some {
                        None
                    } else {
                        match string_at(s, v0) {
                            None => None,
                            Some((v, p2)) => top_members_rest(s, step_to(s, i, p2), idv, Some(v), rg),
                        }
                    }
                } else if key == "view_year_range"@ {
                    if rg is Some {
                        None
                    } else if !at(s, v0, '{') {
                        None
                    } else {
                        match range_members(s, ws(s, v0 + 1), None, None) {
                            None => None,
                            Some((r, p2)) => top_members_rest(s, step_to(s, i, p2), idv, nm, Some(r)),
                        }
                    }
                } else {
                    match skip_value(s, v0) {
                        None => None,
                        Some(e) => top_members_rest(s, step_to(s, i, e), idv, nm, rg),
                    }
                }
            }
        },
    }
}

/// After one member of the top-level object: either a comma and a further
/// member, or the closing brace with all three slots filled.
pub open spec fn top_members_rest(
    s: Seq<char>,
    i: int,
    idv: Option<Seq<char>>,
    nm: Option<Seq<char>>,
    rg: Option<(int, int)>,
) -> Option<(RegionInfoV, int)>
    decreases s.len() + 1 - i, 1int,
{
    let q = ws(s, i);
    if at(s, q, ',') {
        top_members(s, ws(s, q + 1), idv, nm, rg)
    } else if at(s, q, '}') {
        if idv is Some && nm is Some && rg is Some {
            Some(
                (
                    RegionInfoV {
                        identifier: idv.unwrap(),
                        name: nm.unwrap(),
                        start: rg.unwrap().0,
                        end: rg.unwrap().1,
                    },
                    q + 1,
                ),
            )
        } else {
            None
        }
    } else {
        None
    }
}

/// What a whole region-info document means: one top-level object of the
/// three required members, nothing but whitespace around it.
pub open spec fn region_info_model(body: Seq<char>) -> Option<RegionInfoV> {
    let i = ws(body, 0);
    if !at(body, i, '{') {
        None
    } else {
        match top_members(body, ws(body, i + 1), None, None, None) {
            None => None,
            Some((v, p)) => {
                if ws(body, p) >= body.len() {
                    Some(v)
                } else {
                    None
                }
            },
        }
    }
}

/// How an optional parsed string with a next position models its spec.
pub open spec fn str_pos_models(r: Option<(String, usize)>, m: Option<(Seq<char>, int)>) -> bool {
    match r {
        None => m is None,
        Some(a) => m matches Some(b) && a.0@ == b.0 && a.1 as int == b.1,
    }
}

/// How an optional parsed integer with a next position models its spec.
pub open spec fn int_pos_models(r: Option<(i64, usize)>, m: Option<(int, int)>) -> bool {
    match r {
        None => m is None,
        Some(a) => m matches Some(b) && a.0 as int == b.0 && a.1 as int == b.1,
    }
}

/// How an optional parsed year range with a next position models its spec.
pub open spec fn rng_models(r: Option<((i64, i64), usize)>, m: Option<((int, int), int)>) -> bool {
    match r {
        None => m is None,
        Some(a) => m matches Some(b) && a.0.0 as int == b.0.0 && a.0.1 as int == b.0.1 && a.1 as int
            == b.1,
    }
}

/// How an optional parsed entity with a next position models its spec.
pub open spec fn info_models(r: Option<(RegionInfo, usize)>, m: Option<(RegionInfoV, int)>) -> bool {
    match r {
        None => m is None,
        Some(a) => m matches Some(b) && a.0@ == b.0 && a.1 as int == b.1,
    }
}

/// An `i64` slot as its mathematical value.
pub open spec fn oi(o: Option<i64>) -> Option<int> {
    if o is Some {
        Some(o.unwrap() as int)
    } else {
        None
    }
}

/// A string slot as its mathematical value.
pub open spec fn os(o: Option<String>) -> Option<Seq<char>> {
    if o is Some {
        Some(o.unwrap()@)
    } else {
        None
    }
}

/// A year-range slot as its mathematical value.
pub open spec fn org(o: Option<(i64, i64)>) -> Option<(int, int)> {
    if o is Some {
        Some((o.unwrap().0 as int, o.unwrap().1 as int))
    } else {
        None
    }
}

/// The member keys of the two objects are pairwise distinct literals.
proof fn lemma_key_literals_distinct()
    ensures
        "start"@ != "end"@,
        "id"@ != "name"@,
        "id"@ != "view_year_range"@,
        "name"@ != "view_year_range"@,
{
    reveal_strlit("start");
    reveal_strlit("end");
    reveal_strlit("id");
    reveal_strlit("name");
    reveal_strlit("view_year_range");
    assert("start"@.len() == 5);
    assert("end"@.len() == 3);
    assert("id"@.len() == 2);
    assert("name"@.len() == 4);
    assert("view_year_range"@.len() == 15);
}

/// As `lemma_find_in_at`, for `digits_end`.
proof fn lemma_digits_end_at(s: Seq<char>, i: int, j: int)
    requires
        0 <= i <= j <= s.len(),
        forall|k: int| i <= k < j ==> digit_char(#[trigger] s[k]),
        j == s.len() || !digit_char(s[j]),
    ensures
        digits_end(s, i) == j,
    decreases j - i,
{
    if i < j {
        lemma_digits_end_at(s, i + 1, j);
    }
}

/// Exact executable counterpart of `digits_end`.
fn digits_end_str(s: &str, i: usize, n: usize) -> (r: usize)
    requires
        i <= n,
        n == s@.len(),
    ensures
        r as int == digits_end(s@, i as int),
        i <= r <= n,
{
    let ghost gs = s@;
    let mut k: usize = i;
    while k < n
        invariant
            i <= k <= n <= gs.len(),
            n == gs.len(),
            s@ == gs,
            forall|t: int| i <= t < k ==> digit_char(#[trigger] gs[t]),
        decreases n - k,
    {
        let u = s.get_char(k) as u32;
        if !(48 <= u && u <= 57) {
            proof {
                lemma_digits_end_at(gs, i as int, k as int);
            }
            return k;
        }
        k += 1;
    }
    proof {
        lemma_digits_end_at(gs, i as int, n as int);
    }
    n
}

/// The value of the digit run `s[d0..e)`, unless it exceeds `limit`.
fn parse_digits_val(s: &str, d0: usize, e: usize, limit: u64) -> (r: Option<u64>)
    requires
        d0 <= e <= s@.len(),
        limit >= 9,
        forall|k: int| d0 <= k < e ==> digit_char(#[trigger] s@[k]),
    ensures
        match r {
            Some(m) => m as int == digits_val(s@, d0 as int, e as int) && m <= limit,
            None => digits_val(s@, d0 as int, e as int) > limit,
        },
{
    let ghost gs = s@;
    let mut m: u64 = 0;
    let mut k: usize = d0;
    while k < e
        invariant
            d0 <= k <= e <= gs.len(),
            s@ == gs,
            forall|t: int| d0 <= t < e ==> digit_char(#[trigger] gs[t]),
            m as int == digits_val(gs, d0 as int, k as int),
            m <= limit,
            limit >= 9,
        decreases e - k,
    {
        let c = s.get_char(k);
        let d: u64 = (c as u32 as u64) - 48;
        assert(0 <= d <= 9);
        if m > (limit - d) / 10 {
            proof {
                lemma_fundamental_div_mod((limit - d) as int, 10);
                assert(m as int * 10 + d as int > limit as int);
                assert(digits_val(gs, d0 as int, k as int + 1) == m as int * 10 + d as int);
                lemma_digits_val_mono(gs, d0 as int, k as int + 1, e as int);
            }
            return None;
        }
        proof {
            lemma_fundamental_div_mod((limit - d) as int, 10);
            assert(m as int * 10 + d as int <= limit as int);
        }
        m = m * 10 + d;
        k += 1;
    }
    Some(m)
}

/// Relies on `char::from_u32`: the character with the given code point,
/// which the bound keeps a valid scalar value.
#[verifier::external_body]
fn char_from_u32(u: u32) -> (r: char)
    requires
        u < 0xd800 || (0xe000 <= u && u <= 0x10ffff),
    ensures
        r == u as char,
{
    char::from_u32(u).unwrap()
}

/// Exact executable counterpart of `hex_char_val`.
fn hex_val(c: char) -> (r: i32)
    ensures
        r as int == hex_char_val(c),
{
    let u = c as u32;
    if 48 <= u && u <= 57 {
        (u - 48) as i32
    } else if 65 <= u && u <= 70 {
        (u - 55) as i32
    } else if 97 <= u && u <= 102 {
        (u - 87) as i32
    } else {
        -1
    }
}

/// Exact executable counterpart of `hex4_at`.
fn hex4_str(s: &str, i: usize, n: usize) -> (r: i32)
    requires
        i <= n,
        n == s@.len(),
    ensures
        r as int == hex4_at(s@, i as int),
        -1 <= r <= 0xffff,
{
    if n - i < 4 {
        return -1;
    }
    let a = hex_val(s.get_char(i));
    let b = hex_val(s.get_char(i + 1));
    let c = hex_val(s.get_char(i + 2));
    let d = hex_val(s.get_char(i + 3));
    if a < 0 || b < 0 || c < 0 || d < 0 {
        return -1;
    }
    a * 4096 + b * 256 + c * 16 + d
}

/// Exact executable counterpart of `unicode_escape_at`.
fn unicode_escape_str(s: &str, i: usize, n: usize) -> (r: Option<(char, usize)>)
    requires
        i <= n,
        n == s@.len(),
    ensures
        match unicode_escape_at(s@, i as int) {
            Some(b) => r matches Some(a) && a.0 == b.0 && a.1 as int == b.1 && i < a.1 <= n,
            None => r is None,
        },
{
    let u = hex4_str(s, i, n);
    if u < 0 {
        return None;
    }
    let uu = u as u32;
    if uu < 0xd800 || uu > 0xdfff {
        Some((char_from_u32(uu), i + 4))
    } else if uu <= 0xdbff {
        if i + 4 < n && s.get_char(i + 4) == '\\' && i + 5 < n && s.get_char(i + 5) == 'u' {
            let lo = hex4_str(s, i + 6, n);
            if 0xdc00 <= lo && lo <= 0xdfff {
                let lou = lo as u32;
                let code: u32 = 0x10000 + (uu - 0xd800) * 0x400 + (lou - 0xdc00);
                Some((char_from_u32(code), i + 10))
            } else {
                None
            }
        } else {
            None
        }
    } else {
        None
    }
}

/// Exact executable counterpart of `escape_at`.
fn escape_at_str(s: &str, i: usize, n: usize) -> (r: Option<(char, usize)>)
    requires
        i <= n,
        n == s@.len(),
    ensures
        match escape_at(s@, i as int) {
            Some(b) => r matches Some(a) && a.0 == b.0 && a.1 as int == b.1 && i < a.1 <= n,
            None => r is None,
        },
{
    if i >= n {
        return None;
    }
    let c = s.get_char(i);
    if c == '"' {
        Some(('"', i + 1))
    } else if c == '\\' {
        Some(('\\', i + 1))
    } else if c == '/' {
        Some(('/', i + 1))
    } else if c == 'b' {
        Some(('\u{8}', i + 1))
    } else if c == 'f' {
        Some(('\u{c}', i + 1))
    } else if c == 'n' {
        Some(('\n', i + 1))
    } else if c == 'r' {
        Some(('\r', i + 1))
    } else if c == 't' {
        Some(('\t', i + 1))
    } else if c == 'u' {
        unicode_escape_str(s, i + 1, n)
    } else {
        None
    }
}

/// Exact executable counterpart of `string_chars`.
fn string_chars_str(s: &str, i: usize, n: usize) -> (r: Option<(String, usize)>)
    requires
        i <= n,
        n == s@.len(),
    ensures
        match string_chars(s@, i as int) {
            Some(b) => r matches Some(a) && a.0@ == b.0 && a.1 as int == b.1 && i < a.1 <= n,
            None => r is None,
        },
    decreases n - i,
{
    if i >= n {
        return None;
    }
    let c = s.get_char(i);
    if c == '"' {
        return Some((String::new(), i + 1));
    }
    if c == '\\' {
        let (ch, j) = match escape_at_str(s, i + 1, n) {
            None => {
                return None;
            },
            Some(x) => x,
        };
        match string_chars_str(s, j, n) {
            None => None,
            Some((rest, e)) => {
                let mut out = String::new();
                push_char(&mut out, ch);
                out.append(rest.as_str());
                proof {
                    assert(out@ =~= seq![ch] + rest@);
                }
                Some((out, e))
            },
        }
    } else if (c as u32) < 32 {
        None
    } else {
        match string_chars_str(s, i + 1, n) {
            None => None,
            Some((rest, e)) => {
                let mut out = String::new();
                push_char(&mut out, c);
                out.append(rest.as_str());
                proof {
                    assert(out@ =~= seq![c] + rest@);
                }
                Some((out, e))
            },
        }
    }
}

/// Exact executable counterpart of `string_at`.
fn string_at_str(s: &str, i: usize, n: usize) -> (r: Option<(String, usize)>)
    requires
        i <= n,
        n == s@.len(),
    ensures
        str_pos_models(r, string_at(s@, i as int)),
        r matches Some(a) ==> i < a.1 <= n,
{
    if i >= n || s.get_char(i) != '"' {
        return None;
    }
    string_chars_str(s, i + 1, n)
}

/// Exact executable counterpart of `skip_number`.
fn skip_number_str(s: &str, i: usize, n: usize) -> (r: Option<usize>)
    requires
        i <= n,
        n == s@.len(),
    ensures
        match skip_number(s@, i as int) {
            Some(e) => r matches Some(x) && x as int == e && i < x <= n,
            None => r is None,
        },
{
    let neg = i < n && s.get_char(i) == '-';
    let d0 = if neg {
        i + 1
    } else {
        i
    };
    let e1 = digits_end_str(s, d0, n);
    if e1 <= d0 {
        return None;
    }
    if e1 - d0 > 1 && s.get_char(d0) == '0' {
        return None;
    }
    let p = if e1 < n && s.get_char(e1) == '.' {
        let e2 = digits_end_str(s, e1 + 1, n);
        if e2 <= e1 + 1 {
            return None;
        }
        e2
    } else {
        e1
    };
    if p < n && (s.get_char(p) == 'e' || s.get_char(p) == 'E') {
        let x0 = if p + 1 < n && (s.get_char(p + 1) == '+' || s.get_char(p + 1) == '-') {
            p + 2
        } else {
            p + 1
        };
        let e3 = digits_end_str(s, x0, n);
        if e3 <= x0 {
            return None;
        }
        Some(e3)
    } else {
        Some(p)
    }
}

/// Exact executable counterpart of `skip_scalar`.
fn skip_scalar_str(s: &str, i: usize, n: usize) -> (r: Option<usize>)
    requires
        i <= n,
        n == s@.len(),
    ensures
        match skip_scalar(s@, i as int) {
            Some(e) => r matches Some(x) && x as int == e && i < x <= n,
            None => r is None,
        },
{
    let is_true = if n - i >= 4 {
        range_eq(s, i, i + 4, "true")
    } else {
        false
    };
    proof {
        reveal_strlit("true");
        assert(is_true == kw_at(s@, i as int, "true"@));
    }
    if is_true {
        return Some(i + 4);
    }
    let is_false = if n - i >= 5 {
        range_eq(s, i, i + 5, "false")
    } else {
        false
    };
    proof {
        reveal_strlit("false");
        assert(is_false == kw_at(s@, i as int, "false"@));
    }
    if is_false {
        return Some(i + 5);
    }
    let is_null = if n - i >= 4 {
        range_eq(s, i, i + 4, "null")
    } else {
        false
    };
    proof {
        reveal_strlit("null");
        assert(is_null == kw_at(s@, i as int, "null"@));
    }
    if is_null {
        return Some(i + 4);
    }
    skip_number_str(s, i, n)
}

/// Exact executable counterpart of `skip_value`.
fn skip_value_str(s: &str, i: usize, n: usize) -> (r: Option<usize>)
    requires
        i <= n,
        n == s@.len(),
    ensures
        match skip_value(s@, i as int) {
            Some(e) => r matches Some(x) && x as int == e && i < x <= n,
            None => r is None,
        },
    decreases n - i, 0int,
{
    if i >= n {
        return None;
    }
    let c = s.get_char(i);
    if c == '"' {
        match string_chars_str(s, i + 1, n) {
            None => None,
            Some((v, e)) => Some(e),
        }
    } else if c == '{' {
        let j = skip_ws_str(s, i + 1, n);
        if j < n && s.get_char(j) == '}' {
            Some(j + 1)
        } else {
            skip_members_str(s, j, n)
        }
    } else if c == '[' {
        let j = skip_ws_str(s, i + 1, n);
        if j < n && s.get_char(j) == ']' {
            Some(j + 1)
        } else {
            skip_elements_str(s, j, n)
        }
    } else {
        skip_scalar_str(s, i, n)
    }
}

/// Exact executable counterpart of `skip_members`.
fn skip_members_str(s: &str, i: usize, n: usize) -> (r: Option<usize>)
    requires
        i <= n,
        n == s@.len(),
    ensures
        match skip_members(s@, i as int) {
            Some(e) => r matches Some(x) && x as int == e && i < x <= n,
            None => r is None,
        },
    decreases n - i, 1int,
{
    if i >= n || s.get_char(i) != '"' {
        return None;
    }
    let p = match string_chars_str(s, i + 1, n) {
        None => {
            return None;
        },
        Some(x) => x.1,
    };
    let c = skip_ws_str(s, p, n);
    if c >= n || s.get_char(c) != ':' {
        return None;
    }
    let v0 = skip_ws_str(s, c + 1, n);
    let e = match skip_value_str(s, v0, n) {
        None => {
            return None;
        },
        Some(x) => x,
    };
    let q = skip_ws_str(s, e, n);
    if q < n && s.get_char(q) == ',' {
        let r0 = skip_ws_str(s, q + 1, n);
        skip_members_str(s, r0, n)
    } else if q < n && s.get_char(q) == '}' {
        Some(q + 1)
    } else {
        None
    }
}

/// Exact executable counterpart of `skip_elements`.
fn skip_elements_str(s: &str, i: usize, n: usize) -> (r: Option<usize>)
    requires
        i <= n,
        n == s@.len(),
    ensures
        match skip_elements(s@, i as int) {
            Some(e) => r matches Some(x) && x as int == e && i < x <= n,
            None => r is None,
        },
    decreases n - i, 1int,
{
    let e = match skip_value_str(s, i, n) {
        None => {
            return None;
        },
        Some(x) => x,
    };
    let q = skip_ws_str(s, e, n);
    if q < n && s.get_char(q) == ',' {
        let r0 = skip_ws_str(s, q + 1, n);
        skip_elements_str(s, r0, n)
    } else if q < n && s.get_char(q) == ']' {
        Some(q + 1)
    } else {
        None
    }
}

/// Exact executable counterpart of `int_at`.
fn int_at_str(s: &str, i: usize, n: usize) -> (r: Option<(i64, usize)>)
    requires
        i <= n,
        n == s@.len(),
    ensures
        int_pos_models(r, int_at(s@, i as int)),
        r matches Some(a) ==> i < a.1 <= n,
{
    let neg = i < n && s.get_char(i) == '-';
    let d0 = if neg {
        i + 1
    } else {
        i
    };
    let e = digits_end_str(s, d0, n);
    proof {
        lemma_digits_end_props(s@, d0 as int);
    }
    if e <= d0 {
        return None;
    }
    if e - d0 > 1 && s.get_char(d0) == '0' {
        return None;
    }
    let limit: u64 = if neg {
        9223372036854775808
    } else {
        9223372036854775807
    };
    match parse_digits_val(s, d0, e, limit) {
        None => None,
        Some(m) => {
            let v: i64 = if neg {
                if m == 9223372036854775808 {
                    i64::MIN
                } else {
                    -(m as i64)
                }
            } else {
                m as i64
            };
            Some((v, e))
        },
    }
}

/// The integer a whole string holds, as `str_int` states.
fn str_int_val(c: &str) -> (r: Option<i64>)
    ensures
        match r {
            Some(v) => str_int(c@) == Some(v as int),
            None => str_int(c@) is None,
        },
{
    let n = c.unicode_len();
    let signed = n > 0 && (c.get_char(0) == '-' || c.get_char(0) == '+');
    let neg = n > 0 && c.get_char(0) == '-';
    let d0: usize = if signed {
        1
    } else {
        0
    };
    if n <= d0 {
        return None;
    }
    let e = digits_end_str(c, d0, n);
    proof {
        lemma_digits_end_props(c@, d0 as int);
    }
    if e < n {
        return None;
    }
    let limit: u64 = if neg {
        9223372036854775808
    } else {
        9223372036854775807
    };
    match parse_digits_val(c, d0, n, limit) {
        None => None,
        Some(m) => {
            let v: i64 = if neg {
                if m == 9223372036854775808 {
                    i64::MIN
                } else {
                    -(m as i64)
                }
            } else {
                m as i64
            };
            Some(v)
        },
    }
}

/// Exact executable counterpart of `year_at`.
fn year_at_str(s: &str, i: usize, n: usize) -> (r: Option<(i64, usize)>)
    requires
        i <= n,
        n == s@.len(),
    ensures
        int_pos_models(r, year_at(s@, i as int)),
        r matches Some(a) ==> i <= a.1 <= n,
{
    if i < n && s.get_char(i) == '"' {
        match string_at_str(s, i, n) {
            None => None,
            Some((c, p)) => match str_int_val(c.as_str()) {
                None => None,
                Some(v) => Some((v, p)),
            },
        }
    } else {
        int_at_str(s, i, n)
    }
}

/// Exact executable counterpart of `range_members`.
#[verifier::rlimit(60)]
fn range_members_str(s: &str, i: usize, n: usize, st: Option<i64>, en: Option<i64>) -> (r: Option<
    ((i64, i64), usize),
>)
    requires
        i <= n,
        n == s@.len(),
    ensures
        rng_models(r, range_members(s@, i as int, oi(st), oi(en))),
        r matches Some(a) ==> i < a.1 <= n,
    decreases n - i, 0int,
{
    proof {
        lemma_key_literals_distinct();
    }
    let (key, p) = match string_at_str(s, i, n) {
        None => {
            return None;
        },
        Some(kp) => kp,
    };
    let c = skip_ws_str(s, p, n);
    if c >= n || s.get_char(c) != ':' {
        return None;
    }
    let v0 = skip_ws_str(s, c + 1, n);
    if str_eq(key.as_str(), "start") {
        if st.is_some() {
            return None;
        }
        match year_at_str(s, v0, n) {
            None => None,
            Some((v, p2)) => range_members_rest_str(s, p2, n, Some(v), en),
        }
    } else if str_eq(key.as_str(), "end") {
        if en.is_some() {
            return None;
        }
        match year_at_str(s, v0, n) {
            None => None,
            Some((v, p2)) => range_members_rest_str(s, p2, n, st, Some(v)),
        }
    } else {
        match skip_value_str(s, v0, n) {
            None => None,
            Some(e) => range_members_rest_str(s, e, n, st, en),
        }
    }
}

/// Exact executable counterpart of `range_members_rest`.
fn range_members_rest_str(s: &str, i: usize, n: usize, st: Option<i64>, en: Option<i64>) -> (r:
    Option<((i64, i64), usize)>)
    requires
        i <= n,
        n == s@.len(),
    ensures
        rng_models(r, range_members_rest(s@, i as int, oi(st), oi(en))),
        r matches Some(a) ==> i < a.1 <= n,
    decreases n - i, 1int,
{
    let q = skip_ws_str(s, i, n);
    if q < n && s.get_char(q) == ',' {
        let r0 = skip_ws_str(s, q + 1, n);
        range_members_str(s, r0, n, st, en)
    } else if q < n && s.get_char(q) == '}' {
        if st.is_some() && en.is_some() {
            Some(((st.unwrap(), en.unwrap()), q + 1))
        } else {
            None
        }
    } else {
        None
    }
}

/// Exact executable counterpart of `top_members`.
#[verifier::rlimit(100)]
fn top_members_str(
    s: &str,
    i: usize,
    n: usize,
    idv: Option<String>,
    nm: Option<String>,
    rg: Option<(i64, i64)>,
) -> (r: Option<(RegionInfo, usize)>)
    requires
        i <= n,
        n == s@.len(),
    ensures
        info_models(r, top_members(s@, i as int, os(idv), os(nm), org(rg))),
        r matches Some(a) ==> i < a.1 <= n,
    decreases n - i, 0int,
{
    proof {
        lemma_key_literals_distinct();
    }
    let (key, p) = match string_at_str(s, i, n) {
        None => {
            return None;
        },
        Some(kp) => kp,
    };
    let c = skip_ws_str(s, p, n);
    if c >= n || s.get_char(c) != ':' {
        return None;
    }
    let v0 = skip_ws_str(s, c + 1, n);
    if str_eq(key.as_str(), "id") {
        if idv.is_some() {
            return None;
        }
        match string_at_str(s, v0, n) {
            None => None,
            Some((v, p2)) => top_members_rest_str(s, p2, n, Some(v), nm, rg),
        }
    } else if str_eq(key.as_str(), "name") {
        if nm.is_some() {
            return None;
        }
        match string_at_str(s, v0, n) {
            None => None,
            Some((v, p2)) => top_members_rest_str(s, p2, n, idv, Some(v), rg),
        }
    } else if str_eq(key.as_str(), "view_year_range") {
        if rg.is_some() {
            return None;
        }
        if v0 >= n || s.get_char(v0) != '{' {
            return None;
        }
        let w = skip_ws_str(s, v0 + 1, n);
        match range_members_str(s, w, n, None, None) {
            None => None,
            Some((rv, p2)) => top_members_rest_str(s, p2, n, idv, nm, Some(rv)),
        }
    } else {
        match skip_value_str(s, v0, n) {
            None => None,
            Some(e) => top_members_rest_str(s, e, n, idv, nm, rg),
        }
    }
}

/// Exact executable counterpart of `top_members_rest`.
fn top_members_rest_str(
    s: &str,
    i: usize,
    n: usize,
    idv: Option<String>,
    nm: Option<String>,
    rg: Option<(i64, i64)>,
) -> (r: Option<(RegionInfo, usize)>)
    requires
        i <= n,
        n == s@.len(),
    ensures
        info_models(r, top_members_rest(s@, i as int, os(idv), os(nm), org(rg))),
        r matches Some(a) ==> i < a.1 <= n,
    decreases n - i, 1int,
{
    let q = skip_ws_str(s, i, n);
    if q < n && s.get_char(q) == ',' {
        let r0 = skip_ws_str(s, q + 1, n);
        top_members_str(s, r0, n, idv, nm, rg)
    } else if q < n && s.get_char(q) == '}' {
        match (idv, nm, rg) {
            (Some(idval), Some(nmval), Some(rgval)) => Some(
                (
                    RegionInfo {
                        identifier: idval,
                        name: nmval,
                        view_year_range: ViewYearRange { start: rgval.0, end: rgval.1 },
                    },
                    q + 1,
                ),
            ),
            _ => None,
        }
    } else {
        None
    }
}

/// The diagnostic for a body that is not a well-formed region-info
/// document.
pub open spec fn parse_info_message(body: Seq<char>) -> Seq<char> {
    "Could not parse region info. Body \""@ + body + "\""@
}

/// Builds `parse_info_message(body@)` executably.
pub fn info_error_message(body: &str) -> (m: String)
    ensures
        m@ == parse_info_message(body@),
{
    let mut m = String::new();
    m.append("Could not parse region info. Body \"");
    m.append(body);
    push_char(&mut m, '"');
    proof {
        reveal_strlit("\"");
        assert(m@ =~= parse_info_message(body@));
    }
    m
}

impl RegionInfo {
    /// Parses a region-info document, as `region_info_model` states: the
    /// strict JSON object with members `id`, `name` and `view_year_range`
    /// in any order, the year fields read exactly from a JSON integer or a
    /// string of digits; anything else fails with a diagnostic naming the
    /// body.
    pub fn parse_document(body: &str) -> (r: Result<RegionInfo, Error>)
        ensures
            match region_info_model(body@) {
                Some(v) => r matches Ok(info) && info@ == v,
                None => r matches Err(e) && (e matches Error::Parse(m) && m@ == parse_info_message(
                    body@,
                )),
            },
    {
        let n = body.unicode_len();
        let i = skip_ws_str(body, 0, n);
        if i < n && body.get_char(i) == '{' {
            let j = skip_ws_str(body, i + 1, n);
            match top_members_str(body, j, n, None, None, None) {
                Some((info, p)) => {
                    let q = skip_ws_str(body, p, n);
                    if q >= n {
                        return Ok(info);
                    }
                },
                None => {},
            }
        }
        Err(Error::Parse(info_error_message(body)))
    }
}

} // verus!
