//! The authentication strategies: no credentials, Basic, and Digest. The
//! decisions of each strategy — which header to attach, whether to accept
//! a response or retry it with credentials — live here as verified
//! functions; performing the HTTP exchanges themselves is the caller's.
use crate::digest::{
    authorization_model, build_authorization, challenge_model, challenge_supported,
    challenge_supported_exec, colon, compute_response, opt_ref_view, parse_challenge,
    response_hash,
};
use crate::error::Error;
use crate::text::{eq_ci, push_char, range_eq_ci};
use vstd::prelude::*;
use vstd::utf8::encode_utf8;

verus! {

/// The mathematical value of an `AuthInfo`.
pub enum AuthInfoV {
    NoAuth,
    Basic { username: Seq<char>, password: Seq<char> },
    Digest { username: Seq<char>, password: Seq<char> },
}

/// The authentication mode of a client, fixed for its lifetime: no
/// credentials, Basic, or Digest.
#[derive(Debug, Clone, PartialEq, Eq)]
pub enum AuthInfo {
    NoAuth,
    Basic { username: String, password: String },
    Digest { username: String, password: String },
}

impl View for AuthInfo {
    type V = AuthInfoV;

    open spec fn view(&self) -> AuthInfoV {
        match self {
            AuthInfo::NoAuth => AuthInfoV::NoAuth,
            AuthInfo::Basic { username, password } => AuthInfoV::Basic {
                username: username@,
                password: password@,
            },
            AuthInfo::Digest { username, password } => AuthInfoV::Digest {
                username: username@,
                password: password@,
            },
        }
    }
}

/// The base64 digit of a value below sixty-four, in the standard alphabet.
pub open spec fn b64_digit(n: int) -> char {
    if n < 26 {
        ((n + 65) as u8) as char
    } else if n < 52 {
        ((n + 71) as u8) as char
    } else if n < 62 {
        ((n - 4) as u8) as char
    } else if n == 62 {
        '+'
    } else {
        '/'
    }
}

/// Standard base64 of a byte sequence: three bytes to four digits, the
/// last group padded with `=`.
pub open spec fn b64_of(b: Seq<u8>) -> Seq<char>
    decreases b.len(),
{
    if b.len() == 0 {
        Seq::empty()
    } else if b.len() == 1 {
        let x = b[0] as int;
        seq![b64_digit(x / 4), b64_digit(x % 4 * 16), '=', '=']
    } else if b.len() == 2 {
        let x = b[0] as int * 256 + b[1] as int;
        seq![b64_digit(x / 1024), b64_digit(x / 16 % 64), b64_digit(x % 16 * 4), '=']
    } else {
        let x = b[0] as int * 65536 + b[1] as int * 256 + b[2] as int;
        seq![
            b64_digit(x / 262144),
            b64_digit(x / 4096 % 64),
            b64_digit(x / 64 % 64),
            b64_digit(x % 64),
        ] + b64_of(b.skip(3))
    }
}

fn b64_digit_char(n: u8) -> (c: char)
    requires
        n < 64,
    ensures
        c == b64_digit(n as int),
{
    if n < 26 {
        (n + 65) as char
    } else if n < 52 {
        (n + 71) as char
    } else if n < 62 {
        (n - 4) as char
    } else if n == 62 {
        '+'
    } else {
        '/'
    }
}

/// Standard base64 of a byte sequence, as `b64_of` states.
fn base64_chars(bytes: &Vec<u8>) -> (r: String)
    ensures
        r@ == b64_of(bytes@),
{
    let n = bytes.len();
    let mut out = String::new();
    let mut i: usize = 0;
    proof {
        assert(bytes@.skip(0) =~= bytes@);
    }
    while n - i >= 3
        invariant
            i <= n,
            n == bytes@.len(),
            b64_of(bytes@) == out@ + b64_of(bytes@.skip(i as int)),
        decreases n - i,
    {
        let x: u32 = bytes[i] as u32 * 65536 + bytes[i + 1] as u32 * 256 + bytes[i + 2] as u32;
        assert(x < 16777216);
        push_char(&mut out, b64_digit_char((x / 262144) as u8));
        push_char(&mut out, b64_digit_char((x / 4096 % 64) as u8));
        push_char(&mut out, b64_digit_char((x / 64 % 64) as u8));
        push_char(&mut out, b64_digit_char((x % 64) as u8));
        proof {
            let tail = bytes@.skip(i as int);
            assert(tail[0] == bytes@[i as int]);
            assert(tail[1] == bytes@[i as int + 1]);
            assert(tail[2] == bytes@[i as int + 2]);
            assert(tail.skip(3) =~= bytes@.skip(i as int + 3));
            assert(b64_of(bytes@) =~= out@ + b64_of(bytes@.skip(i as int + 3)));
        }
        i += 3;
    }
    if n - i == 1 {
        let x: u32 = bytes[i] as u32;
        push_char(&mut out, b64_digit_char((x / 4) as u8));
        push_char(&mut out, b64_digit_char((x % 4 * 16) as u8));
        push_char(&mut out, '=');
        push_char(&mut out, '=');
        proof {
            let tail = bytes@.skip(i as int);
            assert(tail[0] == bytes@[i as int]);
            assert(out@ =~= b64_of(bytes@));
        }
    } else if n - i == 2 {
        let x: u32 = bytes[i] as u32 * 256 + bytes[i + 1] as u32;
        push_char(&mut out, b64_digit_char((x / 1024) as u8));
        push_char(&mut out, b64_digit_char((x / 16 % 64) as u8));
        push_char(&mut out, b64_digit_char((x % 16 * 4) as u8));
        push_char(&mut out, '=');
        proof {
            let tail = bytes@.skip(i as int);
            assert(tail[0] == bytes@[i as int]);
            assert(tail[1] == bytes@[i as int + 1]);
            assert(out@ =~= b64_of(bytes@));
        }
    } else {
        proof {
            assert(bytes@.skip(i as int) =~= Seq::<u8>::empty());
            assert(out@ =~= b64_of(bytes@));
        }
    }
    out
}

/// The Basic `Authorization` header value: the scheme name and the base64
/// of `username:password` in UTF-8.
pub open spec fn basic_authorization_model(user: Seq<char>, password: Seq<char>) -> Seq<char> {
    "Basic "@ + b64_of(encode_utf8(user + colon() + password))
}

/// Builds the Basic header value, as `basic_authorization_model` states.
pub fn basic_authorization(user: &str, password: &str) -> (r: String)
    ensures
        r@ == basic_authorization_model(user@, password@),
{
    let mut cred = String::new();
    cred.append(user);
    push_char(&mut cred, ':');
    cred.append(password);
    proof {
        assert(cred@ =~= user@ + colon() + password@);
    }
    let bytes = cred.as_str().as_bytes_vec();
    let digits = base64_chars(&bytes);
    let mut out = String::new();
    out.append("Basic ");
    out.append(digits.as_str());
    proof {
        assert(out@ =~= basic_authorization_model(user@, password@));
    }
    out
}

/// What to attach to the first physical request of a logical call: Basic
/// credentials travel on it; the other modes attach nothing.
pub open spec fn initial_authorization_model(auth: AuthInfoV) -> Option<Seq<char>> {
    match auth {
        AuthInfoV::Basic { username, password } => Some(
            basic_authorization_model(username, password),
        ),
        _ => None,
    }
}

/// What the strategy decides once the first response is in.
pub enum AuthStep {
    /// The response is the final one: hand it to the caller as-is.
    Accept,
    /// Send the request once more, with this `Authorization` header.
    Retry { authorization: String },
    /// The exchange failed at the protocol level.
    Reject { message: String },
}

/// The mathematical value of an `AuthStep`.
pub enum StepV {
    Accept,
    Retry(Seq<char>),
    Reject(Seq<char>),
}

/// How an `AuthStep` models its mathematical value.
pub open spec fn step_models(r: AuthStep, m: StepV) -> bool {
    match r {
        AuthStep::Accept => m is Accept,
        AuthStep::Retry { authorization } => m matches StepV::Retry(a) && authorization@ == a,
        AuthStep::Reject { message } => m matches StepV::Reject(x) && message@ == x,
    }
}

/// The diagnostic for a 401 response without a challenge header.
pub open spec fn missing_challenge_message() -> Seq<char> {
    "missing Digest challenge"@
}

/// The diagnostic for a challenge header that does not parse.
pub open spec fn malformed_challenge_message() -> Seq<char> {
    "malformed Digest challenge"@
}

/// The diagnostic for a challenge asking for an unsupported algorithm or
/// quality of protection.
pub open spec fn unsupported_challenge_message() -> Seq<char> {
    "unsupported Digest challenge"@
}

/// The diagnostic for a second challenge in one logical call.
pub open spec fn repeated_challenge_message() -> Seq<char> {
    "server rejected the authenticated retry with another challenge"@
}

/// The Digest strategy's decision on the first response: anything but a
/// 401 is final; a 401 must carry a parseable, supported challenge, which
/// is answered by one authenticated retry. A 401 whose challenge is
/// missing, unreadable or unsupported is a protocol failure, never
/// accepted silently and never retried blind.
pub open spec fn digest_first_model(
    user: Seq<char>,
    password: Seq<char>,
    status: u16,
    header: Option<Seq<char>>,
    method: Seq<char>,
    uri: Seq<char>,
    cnonce: Seq<char>,
) -> StepV {
    if status != 401 {
        StepV::Accept
    } else {
        match header {
            None => StepV::Reject(missing_challenge_message()),
            Some(h) => match challenge_model(h) {
                None => StepV::Reject(malformed_challenge_message()),
                Some(ch) => if !challenge_supported(ch) {
                    StepV::Reject(unsupported_challenge_message())
                } else {
                    StepV::Retry(
                        authorization_model(
                            user,
                            ch.realm,
                            ch.nonce,
                            uri,
                            response_hash(
                                user,
                                password,
                                ch.realm,
                                ch.nonce,
                                method,
                                uri,
                                cnonce,
                                ch.qop is Some,
                            ),
                            cnonce,
                            ch.opaque,
                            ch.qop is Some,
                        ),
                    )
                },
            },
        }
    }
}

/// The strategy's decision on the first response: only Digest mode ever
/// asks for a second request; Basic and no-credentials mode accept
/// whatever came back.
pub open spec fn first_response_model(
    auth: AuthInfoV,
    status: u16,
    header: Option<Seq<char>>,
    method: Seq<char>,
    uri: Seq<char>,
    cnonce: Seq<char>,
) -> StepV {
    match auth {
        AuthInfoV::Digest { username, password } => digest_first_model(
            username,
            password,
            status,
            header,
            method,
            uri,
            cnonce,
        ),
        _ => StepV::Accept,
    }
}

/// Whether a response looks like a Digest challenge: a 401 whose
/// `WWW-Authenticate` header names the Digest scheme (matched without
/// regard to ASCII case, as scheme names are).
pub open spec fn is_digest_challenge_shape(status: u16, header: Option<Seq<char>>) -> bool {
    status == 401 && (header matches Some(h) && h.len() >= 7 && eq_ci(
        h.subrange(0, 7),
        "Digest "@,
    ))
}

/// The decision on the second response of a Digest call: a repeated
/// challenge is a protocol failure, never a further retry; any other
/// response is final.
pub open spec fn second_response_model(status: u16, header: Option<Seq<char>>) -> Option<Seq<char>> {
    if is_digest_challenge_shape(status, header) {
        Some(repeated_challenge_message())
    } else {
        None
    }
}

/// A borrowed optional header value as its mathematical value.
pub open spec fn opt_header_view(o: Option<&String>) -> Option<Seq<char>> {
    match o {
        Some(s) => Some(s@),
        None => None,
    }
}

impl AuthInfo {
    /// The `Authorization` header of the first physical request, as
    /// `initial_authorization_model` states: Basic credentials, or
    /// nothing.
    pub fn initial_authorization(&self) -> (r: Option<String>)
        ensures
            match initial_authorization_model(self@) {
                Some(h) => r matches Some(x) && x@ == h,
                None => r is None,
            },
    {
        match self {
            AuthInfo::Basic { username, password } => Some(
                basic_authorization(username.as_str(), password.as_str()),
            ),
            _ => None,
        }
    }

    /// The decision on the first response of a logical call, as
    /// `first_response_model` states. `cnonce` is the fresh client nonce
    /// of this call; it is used only when a Digest retry is issued.
    pub fn on_first_response(
        &self,
        status: u16,
        www_authenticate: Option<&String>,
        method: &str,
        uri: &str,
        cnonce: &str,
    ) -> (r: AuthStep)
        ensures
            step_models(
                r,
                first_response_model(
                    self@,
                    status,
                    opt_header_view(www_authenticate),
                    method@,
                    uri@,
                    cnonce@,
                ),
            ),
    {
        let (user, password) = match self {
            AuthInfo::Digest { username, password } => (username, password),
            _ => {
                return AuthStep::Accept;
            },
        };
        if status != 401 {
            return AuthStep::Accept;
        }
        let h = match www_authenticate {
            None => {
                return AuthStep::Reject { message: String::from_str("missing Digest challenge") };
            },
            Some(h) => h,
        };
        let ch = match parse_challenge(h.as_str()) {
            None => {
                return AuthStep::Reject {
                    message: String::from_str("malformed Digest challenge"),
                };
            },
            Some(ch) => ch,
        };
        if !challenge_supported_exec(&ch) {
            return AuthStep::Reject { message: String::from_str("unsupported Digest challenge") };
        }
        let with_qop = ch.qop.is_some();
        let response = compute_response(
            user.as_str(),
            password.as_str(),
            ch.realm.as_str(),
            ch.nonce.as_str(),
            method,
            uri,
            cnonce,
            with_qop,
        );
        let opaque_ref: Option<&String> = match &ch.opaque {
            Some(o) => Some(o),
            None => None,
        };
        let authorization = build_authorization(
            user.as_str(),
            ch.realm.as_str(),
            ch.nonce.as_str(),
            uri,
            response.as_str(),
            cnonce,
            opaque_ref,
            with_qop,
        );
        proof {
            assert(opt_ref_view(opaque_ref) == ch@.opaque);
        }
        AuthStep::Retry { authorization }
    }
}

/// The decision on the second response of a Digest call, as
/// `second_response_model` states.
pub fn check_second_response(status: u16, www_authenticate: Option<&String>) -> (r: Result<
    (),
    Error,
>)
    ensures
        match second_response_model(status, opt_header_view(www_authenticate)) {
            Some(msg) => r matches Err(e) && (e matches Error::AuthProtocol(m) && m@ == msg),
            None => r is Ok,
        },
{
    if status != 401 {
        return Ok(());
    }
    let h = match www_authenticate {
        None => {
            return Ok(());
        },
        Some(h) => h,
    };
    let n = h.as_str().unicode_len();
    if n >= 7 && range_eq_ci(h.as_str(), 0, 7, "Digest ") {
        Err(
            Error::AuthProtocol(
                String::from_str("server rejected the authenticated retry with another challenge"),
            ),
        )
    } else {
        Ok(())
    }
}

/// Basic and no-credentials mode never issue more than one physical
/// request per logical call: their decision on the first response is
/// always to accept it.
pub proof fn lemma_non_digest_single_request(
    auth: AuthInfoV,
    status: u16,
    header: Option<Seq<char>>,
    method: Seq<char>,
    uri: Seq<char>,
    cnonce: Seq<char>,
)
    requires
        !(auth is Digest),
    ensures
        first_response_model(auth, status, header, method, uri, cnonce) is Accept,
{
}

/// No-credentials mode attaches no authorization header.
pub proof fn lemma_none_mode_no_authorization()
    ensures
        initial_authorization_model(AuthInfoV::NoAuth) is None,
{
}

/// A second consecutive challenge surfaces as an authentication-protocol
/// failure, never as a further automatic retry.
pub proof fn lemma_second_challenge_rejected(h: Seq<char>)
    requires
        h.len() >= 7,
        eq_ci(h.subrange(0, 7), "Digest "@),
    ensures
        second_response_model(401, Some(h)) == Some(repeated_challenge_message()),
{
}

} // verus!
