//! HTTP Digest authentication: parsing the `WWW-Authenticate` challenge
//! and computing the `Authorization` header of the authenticated retry.
//!
//! The hash is MD5, the scheme's default; a challenge that names any other
//! algorithm, or a quality of protection other than `auth`, is unsupported
//! and reported as such, never silently downgraded.
use crate::text::{
    eq_ci, find_in_c, find_in_str, push_char, range_eq_ci, skip_ws_c, skip_ws_str, str_eq,
    str_eq_ci, trimmed, trimmed_str,
};
use md5::Digest;
use vstd::prelude::*;

verus! {

/// The MD5 digest of the UTF-8 bytes of a text, named but not written out:
/// a function of the input characters alone.
pub uninterp spec fn md5_of(s: Seq<char>) -> Seq<u8>;

/// Relies on the md-5 crate's `Md5::digest`: the 16-byte MD5 digest of the
/// UTF-8 bytes of the input, a function of the input characters alone.
#[verifier::external_body]
fn md5_digest(s: &str) -> (r: [u8; 16])
    ensures
        r@ == md5_of(s@),
{
    md5::Md5::digest(s.as_bytes()).into()
}

/// The lower-case hexadecimal digit of a value below sixteen.
pub open spec fn hex_digit(n: int) -> char {
    if n < 10 {
        ((n + 48) as u8) as char
    } else {
        ((n + 87) as u8) as char
    }
}

/// The lower-case hexadecimal text of a byte sequence, two digits a byte.
pub open spec fn hex_of(b: Seq<u8>) -> Seq<char>
    decreases b.len(),
{
    if b.len() == 0 {
        Seq::empty()
    } else {
        hex_of(b.drop_last()) + seq![
            hex_digit(b.last() as int / 16),
            hex_digit(b.last() as int % 16),
        ]
    }
}

/// The MD5 digest of a text, as lower-case hexadecimal: the form in which
/// the Digest scheme exchanges every hash.
pub open spec fn md5_hex(s: Seq<char>) -> Seq<char> {
    hex_of(md5_of(s))
}

fn hex_digit_char(n: u8) -> (c: char)
    requires
        n < 16,
    ensures
        c == hex_digit(n as int),
{
    if n < 10 {
        (n + 48) as char
    } else {
        (n + 87) as char
    }
}

/// The lower-case hexadecimal text of a 16-byte digest.
fn to_hex(bytes: &[u8; 16]) -> (r: String)
    ensures
        r@ == hex_of(bytes@),
{
    let mut out = String::new();
    let mut i: usize = 0;
    while i < 16
        invariant
            i <= 16,
            bytes@.len() == 16,
            out@ == hex_of(bytes@.take(i as int)),
        decreases 16 - i,
    {
        let b = bytes[i];
        push_char(&mut out, hex_digit_char(b / 16));
        push_char(&mut out, hex_digit_char(b % 16));
        proof {
            assert(bytes@.take(i as int + 1).drop_last() =~= bytes@.take(i as int));
            assert(bytes@.take(i as int + 1).last() == b);
            assert(out@ =~= hex_of(bytes@.take(i as int + 1)));
        }
        i += 1;
    }
    proof {
        assert(bytes@.take(16) =~= bytes@);
    }
    out
}

/// The MD5 digest of a text as hexadecimal, executably.
pub fn md5_hex_str(s: &str) -> (r: String)
    ensures
        r@ == md5_hex(s@),
{
    let d = md5_digest(s);
    to_hex(&d)
}

/// The characters of a quoted challenge value from just after its opening
/// quote: a backslash quotes the character after it (the quoted-pair of
/// the header grammar); the first unquoted `"` ends the value, and the
/// position after it is returned. An unterminated value is malformed.
pub open spec fn quoted_chars(s: Seq<char>, i: int) -> Option<(Seq<char>, int)>
    decreases s.len() - i,
{
    if i < 0 || i >= s.len() {
        None
    } else if s[i] == '"' {
        Some((Seq::empty(), i + 1))
    } else if s[i] == '\\' {
        if i + 1 < s.len() {
            match quoted_chars(s, i + 2) {
                None => None,
                Some((cs, e)) => Some((seq![s[i + 1]] + cs, e)),
            }
        } else {
            None
        }
    } else {
        match quoted_chars(s, i + 1) {
            None => None,
            Some((cs, e)) => Some((seq![s[i]] + cs, e)),
        }
    }
}

/// The parameter list of a challenge header, from position `i`: a comma
/// separated list of `key=value` pairs, the value either quoted (with the
/// quoted-pair escape, as `quoted_chars` reads it) or a bare
/// whitespace-trimmed token. An empty remainder is an empty list; a
/// missing `=`, an empty key or an unclosed quote is malformed.
pub open spec fn params_at(s: Seq<char>, i: int) -> Option<Seq<(Seq<char>, Seq<char>)>>
    decreases s.len() - i,
{
    if i < 0 {
        None
    } else {
        let k = skip_ws_c(s, i, s.len() as int);
        if k >= s.len() {
            Some(Seq::empty())
        } else {
            let e = find_in_c(s, '=', k, s.len() as int);
            if e >= s.len() {
                None
            } else {
                let key = trimmed(s, k, e);
                if key.len() == 0 {
                    None
                } else {
                    let v0 = skip_ws_c(s, e + 1, s.len() as int);
                    if 0 <= v0 < s.len() && s[v0] == '"' {
                        match quoted_chars(s, v0 + 1) {
                            None => None,
                            Some((value, vend)) => {
                                let a = if vend > v0 {
                                    vend
                                } else {
                                    v0 + 1
                                };
                                let q = skip_ws_c(s, a, s.len() as int);
                                if q >= s.len() {
                                    Some(seq![(key, value)])
                                } else if s[q] == ',' {
                                    match params_at(s, q + 1) {
                                        None => None,
                                        Some(rest) => Some(seq![(key, value)] + rest),
                                    }
                                } else {
                                    None
                                }
                            },
                        }
                    } else {
                        let c = find_in_c(s, ',', v0, s.len() as int);
                        let value = trimmed(s, v0, c);
                        if c >= s.len() {
                            Some(seq![(key, value)])
                        } else {
                            match params_at(s, c + 1) {
                                None => None,
                                Some(rest) => Some(seq![(key, value)] + rest),
                            }
                        }
                    }
                }
            }
        }
    }
}

/// The value of the first parameter with the given key, if any.
pub open spec fn lookup(ps: Seq<(Seq<char>, Seq<char>)>, key: Seq<char>) -> Option<Seq<char>>
    decreases ps.len(),
{
    if ps.len() == 0 {
        None
    } else if ps[0].0 == key {
        Some(ps[0].1)
    } else {
        lookup(ps.drop_first(), key)
    }
}

/// The mathematical value of a `DigestChallenge`.
pub struct ChallengeV {
    pub realm: Seq<char>,
    pub nonce: Seq<char>,
    pub opaque: Option<Seq<char>>,
    pub algorithm: Option<Seq<char>>,
    pub qop: Option<Seq<char>>,
}

/// A parsed Digest challenge: the fields of the `WWW-Authenticate` header
/// that the retry needs. `realm` and `nonce` are required; the others are
/// kept as sent, unvalidated.
#[derive(Debug, Clone, PartialEq, Eq)]
pub struct DigestChallenge {
    pub realm: String,
    pub nonce: String,
    pub opaque: Option<String>,
    pub algorithm: Option<String>,
    pub qop: Option<String>,
}

impl View for DigestChallenge {
    type V = ChallengeV;

    open spec fn view(&self) -> ChallengeV {
        ChallengeV {
            realm: self.realm@,
            nonce: self.nonce@,
            opaque: match self.opaque {
                Some(o) => Some(o@),
                None => None,
            },
            algorithm: match self.algorithm {
                Some(a) => Some(a@),
                None => None,
            },
            qop: match self.qop {
                Some(q) => Some(q@),
                None => None,
            },
        }
    }
}

/// What a `WWW-Authenticate` header value means as a Digest challenge: the
/// scheme name (matched without regard to ASCII case, as scheme names
/// are), then parameters among which `realm` and `nonce` must occur;
/// anything else is malformed.
pub open spec fn challenge_model(h: Seq<char>) -> Option<ChallengeV> {
    if h.len() < 7 || !eq_ci(h.subrange(0, 7), "Digest "@) {
        None
    } else {
        match params_at(h, 7) {
            None => None,
            Some(ps) => {
                let realm = lookup(ps, "realm"@);
                let nonce = lookup(ps, "nonce"@);
                if realm is Some && nonce is Some {
                    Some(
                        ChallengeV {
                            realm: realm.unwrap(),
                            nonce: nonce.unwrap(),
                            opaque: lookup(ps, "opaque"@),
                            algorithm: lookup(ps, "algorithm"@),
                            qop: lookup(ps, "qop"@),
                        },
                    )
                } else {
                    None
                }
            },
        }
    }
}

/// Whether the comma-separated option list offers the plain `auth`
/// quality of protection.
pub open spec fn list_has_auth(s: Seq<char>, i: int) -> bool
    decreases s.len() - i,
{
    if i < 0 {
        false
    } else {
        let c = find_in_c(s, ',', i, s.len() as int);
        if trimmed(s, i, c) == "auth"@ {
            true
        } else if c >= s.len() {
            false
        } else {
            list_has_auth(s, c + 1)
        }
    }
}

/// Whether this crate can answer the challenge: the algorithm must be
/// MD5 (the default when unnamed; the token is matched without regard to
/// ASCII case), and any offered quality of protection must include plain
/// `auth`.
pub open spec fn challenge_supported(ch: ChallengeV) -> bool {
    (ch.algorithm is None || eq_ci(ch.algorithm.unwrap(), "MD5"@)) && (ch.qop is None
        || list_has_auth(ch.qop.unwrap(), 0))
}

/// Exact executable counterpart of `quoted_chars`.
fn quoted_chars_str(s: &str, i: usize, n: usize) -> (r: Option<(String, usize)>)
    requires
        i <= n,
        n == s@.len(),
    ensures
        match quoted_chars(s@, i as int) {
            Some(b) => r matches Some(a) && a.0@ == b.0 && a.1 as int == b.1 && i < a.1 <= n,
            None => r is None,
        },
    decreases n - i,
{
    if i >= n {
        return None;
    }
    let c = s.get_char(i);
    if c == '"' {
        return Some((String::new(), i + 1));
    }
    if c == '\\' {
        if i + 1 >= n {
            return None;
        }
        let esc = s.get_char(i + 1);
        match quoted_chars_str(s, i + 2, n) {
            None => None,
            Some((rest, e)) => {
                let mut out = String::new();
                push_char(&mut out, esc);
                out.append(rest.as_str());
                proof {
                    assert(out@ =~= seq![esc] + rest@);
                }
                Some((out, e))
            },
        }
    } else {
        match quoted_chars_str(s, i + 1, n) {
            None => None,
            Some((rest, e)) => {
                let mut out = String::new();
                push_char(&mut out, c);
                out.append(rest.as_str());
                proof {
                    assert(out@ =~= seq![c] + rest@);
                }
                Some((out, e))
            },
        }
    }
}

/// Exact executable counterpart of `params_at`.
fn parse_params(s: &str, i: usize, n: usize) -> (r: Option<Vec<(String, String)>>)
    requires
        i <= n,
        n == s@.len(),
    ensures
        match params_at(s@, i as int) {
            Some(m) => r matches Some(v) && v.deep_view() == m,
            None => r is None,
        },
    decreases n - i,
{
    let k = skip_ws_str(s, i, n);
    if k >= n {
        let out: Vec<(String, String)> = Vec::new();
        proof {
            assert(out.deep_view() =~= Seq::<(Seq<char>, Seq<char>)>::empty());
        }
        return Some(out);
    }
    let e = find_in_str(s, '=', k, n);
    if e >= n {
        return None;
    }
    let key = trimmed_str(s, k, e);
    if key.unicode_len() == 0 {
        return None;
    }
    let v0 = skip_ws_str(s, e + 1, n);
    if v0 < n && s.get_char(v0) == '"' {
        let (value, vend) = match quoted_chars_str(s, v0 + 1, n) {
            None => {
                return None;
            },
            Some(x) => x,
        };
        let q = skip_ws_str(s, vend, n);
        if q >= n {
            let mut out: Vec<(String, String)> = Vec::new();
            out.push((key, value));
            proof {
                assert(out.deep_view() =~= params_at(s@, i as int).unwrap());
            }
            return Some(out);
        }
        if s.get_char(q) == ',' {
            match parse_params(s, q + 1, n) {
                None => None,
                Some(mut rest) => {
                    let mut out: Vec<(String, String)> = Vec::new();
                    out.push((key, value));
                    out.append(&mut rest);
                    proof {
                        assert(out.deep_view() =~= params_at(s@, i as int).unwrap());
                    }
                    Some(out)
                },
            }
        } else {
            None
        }
    } else {
        let c = find_in_str(s, ',', v0, n);
        let value = trimmed_str(s, v0, c);
        if c >= n {
            let mut out: Vec<(String, String)> = Vec::new();
            out.push((key, value));
            proof {
                assert(out.deep_view() =~= params_at(s@, i as int).unwrap());
            }
            return Some(out);
        }
        match parse_params(s, c + 1, n) {
            None => None,
            Some(mut rest) => {
                let mut out: Vec<(String, String)> = Vec::new();
                out.push((key, value));
                out.append(&mut rest);
                proof {
                    assert(out.deep_view() =~= params_at(s@, i as int).unwrap());
                }
                Some(out)
            },
        }
    }
}

/// Exact executable counterpart of `lookup`.
fn lookup_param(ps: &Vec<(String, String)>, key: &str) -> (r: Option<String>)
    ensures
        match lookup(ps.deep_view(), key@) {
            Some(v) => r matches Some(x) && x@ == v,
            None => r is None,
        },
{
    let ghost m = ps.deep_view();
    proof {
        assert(m.skip(0) =~= m);
    }
    let mut i: usize = 0;
    while i < ps.len()
        invariant
            i <= ps@.len(),
            m == ps.deep_view(),
            lookup(m, key@) == lookup(m.skip(i as int), key@),
        decreases ps@.len() - i,
    {
        proof {
            assert(m.skip(i as int)[0] == m[i as int]);
            assert(m.skip(i as int).drop_first() =~= m.skip(i as int + 1));
        }
        if str_eq(ps[i].0.as_str(), key) {
            let v = ps[i].1.clone();
            return Some(v);
        }
        i += 1;
    }
    proof {
        assert(m.skip(ps@.len() as int) =~= Seq::<(Seq<char>, Seq<char>)>::empty());
    }
    None
}

/// Exact executable counterpart of `list_has_auth`.
fn qop_lists_auth(s: &str, i: usize, n: usize) -> (r: bool)
    requires
        i <= n,
        n == s@.len(),
    ensures
        r == list_has_auth(s@, i as int),
    decreases n - i,
{
    let c = find_in_str(s, ',', i, n);
    let piece = trimmed_str(s, i, c);
    if str_eq(piece.as_str(), "auth") {
        return true;
    }
    if c >= n {
        return false;
    }
    qop_lists_auth(s, c + 1, n)
}

/// Parses a `WWW-Authenticate` header value, as `challenge_model` states.
pub fn parse_challenge(header: &str) -> (r: Option<DigestChallenge>)
    ensures
        match challenge_model(header@) {
            Some(cv) => r matches Some(c) && c@ == cv,
            None => r is None,
        },
{
    let n = header.unicode_len();
    if n < 7 {
        return None;
    }
    if !range_eq_ci(header, 0, 7, "Digest ") {
        return None;
    }
    let ps = match parse_params(header, 7, n) {
        None => {
            return None;
        },
        Some(ps) => ps,
    };
    let realm = match lookup_param(&ps, "realm") {
        None => {
            return None;
        },
        Some(v) => v,
    };
    let nonce = match lookup_param(&ps, "nonce") {
        None => {
            return None;
        },
        Some(v) => v,
    };
    Some(
        DigestChallenge {
            realm,
            nonce,
            opaque: lookup_param(&ps, "opaque"),
            algorithm: lookup_param(&ps, "algorithm"),
            qop: lookup_param(&ps, "qop"),
        },
    )
}

/// Whether the parsed challenge is one this crate can answer, executably.
pub fn challenge_supported_exec(ch: &DigestChallenge) -> (r: bool)
    ensures
        r == challenge_supported(ch@),
{
    let algorithm_ok = match &ch.algorithm {
        None => true,
        Some(a) => str_eq_ci(a.as_str(), "MD5"),
    };
    if !algorithm_ok {
        return false;
    }
    match &ch.qop {
        None => true,
        Some(q) => qop_lists_auth(q.as_str(), 0, q.as_str().unicode_len()),
    }
}

/// A single colon, the separator of every hashed concatenation.
pub open spec fn colon() -> Seq<char> {
    seq![':']
}

/// `HA1` of the scheme: the hash of `username:realm:password`.
pub open spec fn ha1(user: Seq<char>, realm: Seq<char>, password: Seq<char>) -> Seq<char> {
    md5_hex(user + colon() + realm + colon() + password)
}

/// `HA2` of the scheme: the hash of `method:uri`.
pub open spec fn ha2(method: Seq<char>, uri: Seq<char>) -> Seq<char> {
    md5_hex(method + colon() + uri)
}

/// The request counter: the first request of the challenge cycle, always,
/// since no counter outlives one logical call.
pub open spec fn nc_text() -> Seq<char> {
    "00000001"@
}

/// The response hash of the scheme: with a quality of protection,
/// `H(HA1:nonce:nc:cnonce:auth:HA2)`; without one, the older
/// `H(HA1:nonce:HA2)`.
pub open spec fn response_hash(
    user: Seq<char>,
    password: Seq<char>,
    realm: Seq<char>,
    nonce: Seq<char>,
    method: Seq<char>,
    uri: Seq<char>,
    cnonce: Seq<char>,
    with_qop: bool,
) -> Seq<char> {
    if with_qop {
        md5_hex(
            ha1(user, realm, password) + colon() + nonce + colon() + nc_text() + colon() + cnonce
                + colon() + "auth"@ + colon() + ha2(method, uri),
        )
    } else {
        md5_hex(ha1(user, realm, password) + colon() + nonce + colon() + ha2(method, uri))
    }
}

/// Computes the response hash, as `response_hash` states.
pub fn compute_response(
    user: &str,
    password: &str,
    realm: &str,
    nonce: &str,
    method: &str,
    uri: &str,
    cnonce: &str,
    with_qop: bool,
) -> (r: String)
    ensures
        r@ == response_hash(user@, password@, realm@, nonce@, method@, uri@, cnonce@, with_qop),
{
    let mut a1 = String::new();
    a1.append(user);
    push_char(&mut a1, ':');
    a1.append(realm);
    push_char(&mut a1, ':');
    a1.append(password);
    proof {
        assert(a1@ =~= user@ + colon() + realm@ + colon() + password@);
    }
    let h1 = md5_hex_str(a1.as_str());
    let mut a2 = String::new();
    a2.append(method);
    push_char(&mut a2, ':');
    a2.append(uri);
    proof {
        assert(a2@ =~= method@ + colon() + uri@);
    }
    let h2 = md5_hex_str(a2.as_str());
    let mut data = String::new();
    data.append(h1.as_str());
    push_char(&mut data, ':');
    data.append(nonce);
    if with_qop {
        push_char(&mut data, ':');
        data.append("00000001");
        push_char(&mut data, ':');
        data.append(cnonce);
        push_char(&mut data, ':');
        data.append("auth");
    }
    push_char(&mut data, ':');
    data.append(h2.as_str());
    proof {
        if with_qop {
            assert(data@ =~= ha1(user@, realm@, password@) + colon() + nonce@ + colon() + nc_text()
                + colon() + cnonce@ + colon() + "auth"@ + colon() + ha2(method@, uri@));
        } else {
            assert(data@ =~= ha1(user@, realm@, password@) + colon() + nonce@ + colon() + ha2(
                method@,
                uri@,
            ));
        }
    }
    md5_hex_str(data.as_str())
}

/// A value in double quotes, as the header carries most of its fields.
pub open spec fn quoted(v: Seq<char>) -> Seq<char> {
    seq!['"'] + v + seq!['"']
}

/// The `Authorization` header value of the authenticated retry. The
/// `qop`, `nc` and `cnonce` fields travel only when the challenge offered
/// a quality of protection; `opaque` travels exactly when the server sent
/// one.
pub open spec fn authorization_model(
    user: Seq<char>,
    realm: Seq<char>,
    nonce: Seq<char>,
    uri: Seq<char>,
    response: Seq<char>,
    cnonce: Seq<char>,
    opaque: Option<Seq<char>>,
    with_qop: bool,
) -> Seq<char> {
    "Digest username="@ + quoted(user) + ", realm="@ + quoted(realm) + ", nonce="@ + quoted(nonce)
        + ", uri="@ + quoted(uri) + (if with_qop {
        ", qop=auth, nc=00000001, cnonce="@ + quoted(cnonce)
    } else {
        Seq::empty()
    }) + ", response="@ + quoted(response) + (match opaque {
        Some(o) => ", opaque="@ + quoted(o),
        None => Seq::empty(),
    })
}

/// A borrowed optional string as its mathematical value.
pub open spec fn opt_ref_view(o: Option<&String>) -> Option<Seq<char>> {
    match o {
        Some(s) => Some(s@),
        None => None,
    }
}

/// Builds the `Authorization` header value, as `authorization_model`
/// states.
#[verifier::rlimit(50)]
pub fn build_authorization(
    user: &str,
    realm: &str,
    nonce: &str,
    uri: &str,
    response: &str,
    cnonce: &str,
    opaque: Option<&String>,
    with_qop: bool,
) -> (r: String)
    ensures
        r@ == authorization_model(
            user@,
            realm@,
            nonce@,
            uri@,
            response@,
            cnonce@,
            opt_ref_view(opaque),
            with_qop,
        ),
{
    let mut h = String::new();
    h.append("Digest username=");
    push_char(&mut h, '"');
    h.append(user);
    push_char(&mut h, '"');
    h.append(", realm=");
    push_char(&mut h, '"');
    h.append(realm);
    push_char(&mut h, '"');
    h.append(", nonce=");
    push_char(&mut h, '"');
    h.append(nonce);
    push_char(&mut h, '"');
    h.append(", uri=");
    push_char(&mut h, '"');
    h.append(uri);
    push_char(&mut h, '"');
    proof {
        assert(h@ =~= "Digest username="@ + quoted(user@) + ", realm="@ + quoted(realm@)
            + ", nonce="@ + quoted(nonce@) + ", uri="@ + quoted(uri@));
    }
    if with_qop {
        h.append(", qop=auth, nc=00000001, cnonce=");
        push_char(&mut h, '"');
        h.append(cnonce);
        push_char(&mut h, '"');
    }
    proof {
        assert(h@ =~= "Digest username="@ + quoted(user@) + ", realm="@ + quoted(realm@)
            + ", nonce="@ + quoted(nonce@) + ", uri="@ + quoted(uri@) + (if with_qop {
            ", qop=auth, nc=00000001, cnonce="@ + quoted(cnonce@)
        } else {
            Seq::<char>::empty()
        }));
    }
    h.append(", response=");
    push_char(&mut h, '"');
    h.append(response);
    push_char(&mut h, '"');
    match opaque {
        Some(o) => {
            h.append(", opaque=");
            push_char(&mut h, '"');
            h.append(o.as_str());
            push_char(&mut h, '"');
        },
        None => {},
    }
    proof {
        assert(h@ =~= authorization_model(
            user@,
            realm@,
            nonce@,
            uri@,
            response@,
            cnonce@,
            opt_ref_view(opaque),
            with_qop,
        ));
    }
    h
}

} // verus!
