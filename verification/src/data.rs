//! The region-list wire format: newline-separated lines of
//! `identifier;name` fields, and the `Region` entity parsed from them.
use crate::error::Error;
use crate::text::{
    find_in_c, find_in_str, is_space, lemma_find_in_at, lemma_find_in_props, lemma_skip_ws_at,
    lemma_skip_ws_props, lemma_trimmed_shift, push_char, skip_ws, skip_ws_str, trimmed,
    trimmed_str,
};
use vstd::prelude::*;

verus! {

/// The mathematical value of a `Region`.
pub struct RegionV {
    pub identifier: Seq<char>,
    pub name: Seq<char>,
}

/// A geographic region the metadata service tracks: an opaque
/// service-defined identifier and a human-readable name.
#[derive(Debug, Clone, PartialEq, Eq)]
pub struct Region {
    pub identifier: String,
    pub name: String,
}

impl View for Region {
    type V = RegionV;

    open spec fn view(&self) -> RegionV {
        RegionV { identifier: self.identifier@, name: self.name@ }
    }
}

impl DeepView for Region {
    type V = RegionV;

    open spec fn deep_view(&self) -> RegionV {
        self@
    }
}

/// What one line of the list format means, over the range `s[lo..hi)`.
///
/// The first `;` separates the identifier field from the name field; both
/// fields are whitespace-trimmed. The policy on extra fields is the lenient
/// one: a second `;` ends the name field and anything after it is ignored.
/// A line without any `;` has no name field and is malformed.
pub open spec fn line_model(s: Seq<char>, lo: int, hi: int) -> Option<RegionV> {
    let semi = find_in_c(s, ';', lo, hi);
    if semi >= hi {
        None
    } else {
        let semi2 = find_in_c(s, ';', semi + 1, hi);
        Some(RegionV { identifier: trimmed(s, lo, semi), name: trimmed(s, semi + 1, semi2) })
    }
}

/// End of the line that starts at `i`: the first `'\n'` at or after `i`,
/// else the end of the input.
pub open spec fn line_end(s: Seq<char>, i: int) -> int {
    find_in_c(s, '\n', i, s.len() as int)
}

/// What the whole list format means, from position `i` on: each line is
/// whitespace-trimmed, blank lines are dropped, every remaining line must
/// parse, and order is kept. A malformed line fails the whole parse; the
/// error carries the offending trimmed line.
pub open spec fn list_model(s: Seq<char>, i: int) -> Result<Seq<RegionV>, Seq<char>>
    decreases s.len() - i,
{
    if i < 0 || i > s.len() {
        Ok(Seq::empty())
    } else {
        let j = line_end(s, i);
        let head: Result<Seq<RegionV>, Seq<char>> = if skip_ws_c_full(s, i, j) >= j {
            Ok(Seq::empty())
        } else {
            match line_model(s, i, j) {
                None => Err(trimmed(s, i, j)),
                Some(r) => Ok(seq![r]),
            }
        };
        match head {
            Err(e) => Err(e),
            Ok(h) => {
                if j >= s.len() {
                    Ok(h)
                } else {
                    match list_model(s, j + 1) {
                        Err(e) => Err(e),
                        Ok(t) => Ok(h + t),
                    }
                }
            },
        }
    }
}

/// `skip_ws`, clamped from below only; the form under which a blank line
/// test keeps `list_model`'s recursion well-founded.
pub open spec fn skip_ws_c_full(s: Seq<char>, i: int, end: int) -> int {
    let j = skip_ws(s, i, end);
    if j < i {
        i
    } else {
        j
    }
}

/// The diagnostic for a line in which no name field could be found.
pub open spec fn parse_line_message(line: Seq<char>) -> Seq<char> {
    "Could not parse region name. Line \""@ + line + "\""@
}

/// Builds `parse_line_message(line@)` executably.
pub fn line_error_message(line: &str) -> (m: String)
    ensures
        m@ == parse_line_message(line@),
{
    let mut m = String::new();
    m.append("Could not parse region name. Line \"");
    m.append(line);
    push_char(&mut m, '"');
    proof {
        reveal_strlit("\"");
        assert(m@ =~= parse_line_message(line@));
    }
    m
}

/// A line is malformed exactly when it holds no field separator.
pub proof fn lemma_line_without_separator(s: Seq<char>, lo: int, hi: int)
    requires
        0 <= lo <= hi <= s.len(),
    ensures
        line_model(s, lo, hi) is None <==> (forall|k: int| lo <= k < hi ==> s[k] != ';'),
{
    lemma_find_in_props(s, ';', lo, hi);
}

/// Input that holds only whitespace parses to the empty sequence, never to
/// an error; the empty input is such an input.
pub proof fn lemma_blank_input_parses_empty(s: Seq<char>)
    requires
        forall|k: int| 0 <= k < s.len() ==> is_space(s[k]),
    ensures
        list_model(s, 0) == Ok::<Seq<RegionV>, Seq<char>>(Seq::<RegionV>::empty()),
{
    lemma_blank_suffix_parses_empty(s, 0);
}

proof fn lemma_blank_suffix_parses_empty(s: Seq<char>, i: int)
    requires
        0 <= i <= s.len(),
        forall|k: int| 0 <= k < s.len() ==> is_space(s[k]),
    ensures
        list_model(s, i) == Ok::<Seq<RegionV>, Seq<char>>(Seq::<RegionV>::empty()),
    decreases s.len() - i,
{
    let j = line_end(s, i);
    lemma_find_in_props(s, '\n', i, s.len() as int);
    lemma_skip_ws_at(s, i, j, j);
    if j < s.len() {
        lemma_blank_suffix_parses_empty(s, j + 1);
    }
    assert(Seq::<RegionV>::empty() + Seq::<RegionV>::empty() =~= Seq::<RegionV>::empty());
}

/// Every well-formed two-field line is recovered exactly: for a line
/// `a;b` in which neither part holds a further separator, the parser
/// yields the identifier `a` and the name `b`, each whitespace-stripped.
pub proof fn lemma_two_field_line_recovered(a: Seq<char>, b: Seq<char>)
    requires
        forall|k: int| 0 <= k < a.len() ==> a[k] != ';',
        forall|k: int| 0 <= k < b.len() ==> b[k] != ';',
    ensures
        line_model(a + seq![';'] + b, 0, (a.len() + 1 + b.len()) as int) == Some(
            RegionV {
                identifier: trimmed(a, 0, a.len() as int),
                name: trimmed(b, 0, b.len() as int),
            },
        ),
{
    let s = a + seq![';'] + b;
    let al = a.len() as int;
    let n = s.len() as int;
    assert(s[al] == ';');
    assert(forall|k: int| 0 <= k < al ==> s[k] == a[k]);
    assert(forall|k: int| 0 <= k < b.len() ==> s[al + 1 + k] == b[k]);
    lemma_find_in_at(s, ';', 0, n, al);
    lemma_find_in_at(s, ';', al + 1, n, n);
    lemma_trimmed_shift(s, 0, a, 0, al);
    lemma_trimmed_shift(s, al + 1, b, 0, b.len() as int);
}

/// As `lemma_two_field_line_recovered`, at the level of the list parser:
/// an input that is one well-formed two-field line parses to exactly that
/// one region, whitespace-stripped.
pub proof fn lemma_two_field_list_recovered(a: Seq<char>, b: Seq<char>)
    requires
        forall|k: int| 0 <= k < a.len() ==> a[k] != ';' && a[k] != '\n',
        forall|k: int| 0 <= k < b.len() ==> b[k] != ';' && b[k] != '\n',
    ensures
        list_model(a + seq![';'] + b, 0) == Ok::<Seq<RegionV>, Seq<char>>(
            seq![
                RegionV {
                    identifier: trimmed(a, 0, a.len() as int),
                    name: trimmed(b, 0, b.len() as int),
                },
            ],
        ),
{
    let s = a + seq![';'] + b;
    let al = a.len() as int;
    let n = s.len() as int;
    assert(s[al] == ';');
    assert(forall|k: int| 0 <= k < al ==> s[k] == a[k]);
    assert(forall|k: int| 0 <= k < b.len() ==> s[al + 1 + k] == b[k]);
    assert(forall|k: int| 0 <= k < n ==> s[k] != '\n');
    lemma_find_in_at(s, '\n', 0, n, n);
    lemma_skip_ws_props(s, 0, n);
    assert(!is_space(';'));
    assert(skip_ws(s, 0, n) < n) by {
        if skip_ws(s, 0, n) == n {
            assert(is_space(s[al]));
        }
    }
    lemma_two_field_line_recovered(a, b);
}

impl Region {
    /// Parses one line of the list format, as `line_model` states: the
    /// fields around the first `;`, whitespace-trimmed; an error naming the
    /// line when it has no `;`.
    pub fn parse_line(line: &str) -> (r: Result<Region, Error>)
        ensures
            match line_model(line@, 0, line@.len() as int) {
                Some(v) => r matches Ok(reg) && reg@ == v,
                None => r matches Err(e) && (e matches Error::Parse(m) && m@ == parse_line_message(
                    line@,
                )),
            },
    {
        let n = line.unicode_len();
        let semi = find_in_str(line, ';', 0, n);
        if semi >= n {
            proof {
                lemma_find_in_props(line@, ';', 0, n as int);
            }
            Err(Error::Parse(line_error_message(line)))
        } else {
            let semi2 = find_in_str(line, ';', semi + 1, n);
            proof {
                lemma_find_in_props(line@, ';', 0, n as int);
                lemma_find_in_props(line@, ';', semi + 1, n as int);
            }
            Ok(
                Region {
                    identifier: trimmed_str(line, 0, semi),
                    name: trimmed_str(line, semi + 1, semi2),
                },
            )
        }
    }

    /// Parses a full list response, as `list_model` states: blank lines are
    /// dropped, each remaining line yields one region in input order, and
    /// the first malformed line fails the parse with a diagnostic naming
    /// that line.
    pub fn parse_list(list: &str) -> (r: Result<Vec<Region>, Error>)
        ensures
            match list_model(list@, 0) {
                Ok(m) => r matches Ok(v) && v.deep_view() == m,
                Err(line) => r matches Err(e) && (e matches Error::Parse(msg) && msg@
                    == parse_line_message(line)),
            },
    {
        let n = list.unicode_len();
        Self::parse_list_at(list, 0, n)
    }

    /// One step of `parse_list`: the lines from position `i` on.
    fn parse_list_at(list: &str, i: usize, n: usize) -> (r: Result<Vec<Region>, Error>)
        requires
            i <= n,
            n == list@.len(),
        ensures
            match list_model(list@, i as int) {
                Ok(m) => r matches Ok(v) && v.deep_view() == m,
                Err(line) => r matches Err(e) && (e matches Error::Parse(msg) && msg@
                    == parse_line_message(line)),
            },
        decreases n - i,
    {
        let ghost gs = list@;
        let j = find_in_str(list, '\n', i, n);
        proof {
            lemma_find_in_props(gs, '\n', i as int, n as int);
            assert(j as int == line_end(gs, i as int));
        }
        let a = skip_ws_str(list, i, j);
        proof {
            lemma_skip_ws_props(gs, i as int, j as int);
            assert(a as int == skip_ws_c_full(gs, i as int, j as int));
        }
        let head: Option<Region> = if a >= j {
            None
        } else {
            let semi = find_in_str(list, ';', i, j);
            if semi >= j {
                proof {
                    lemma_find_in_props(gs, ';', i as int, j as int);
                }
                let bad = trimmed_str(list, i, j);
                return Err(Error::Parse(line_error_message(bad.as_str())));
            }
            let semi2 = find_in_str(list, ';', semi + 1, j);
            proof {
                lemma_find_in_props(gs, ';', i as int, j as int);
                lemma_find_in_props(gs, ';', semi + 1, j as int);
            }
            Some(
                Region {
                    identifier: trimmed_str(list, i, semi),
                    name: trimmed_str(list, semi + 1, semi2),
                },
            )
        };
        let mut out: Vec<Region> = Vec::new();
        if let Some(reg) = head {
            out.push(reg);
        }
        if j >= n {
            proof {
                assert(out.deep_view() =~= match list_model(gs, i as int) {
                    Ok(m) => m,
                    Err(_) => Seq::empty(),
                });
            }
            return Ok(out);
        }
        let mut tail = match Self::parse_list_at(list, j + 1, n) {
            Ok(t) => t,
            Err(e) => {
                return Err(e);
            },
        };
        out.append(&mut tail);
        proof {
            assert(out.deep_view() =~= match list_model(gs, i as int) {
                Ok(m) => m,
                Err(_) => Seq::empty(),
            });
        }
        Ok(out)
    }
}

} // verus!
