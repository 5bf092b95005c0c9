//! HTTP Basic and Digest authentication: the decisions that a request's credentials
//! lead to, and the challenges that a refused request receives.
use headers::Header;
use rand::Rng;
use vstd::prelude::*;
use crate::digest::{digest_response, parse_header, parsed_view, response_of};
use crate::digest::{Authorization, HeaderError, HeaderFault};
use crate::nonce::{consumed, issued, NonceLedger, Token};

verus! {

/// Length of the nonce and of the opaque value of a Digest challenge.
pub const TOKEN_LEN: usize = 32;

/// A character of `A-Z`, `a-z` or `0-9`.
pub open spec fn is_alphanumeric(c: char) -> bool {
    ('0' <= c && c <= '9') || ('A' <= c && c <= 'Z') || ('a' <= c && c <= 'z')
}

/// A fresh token: `TOKEN_LEN` alphanumeric characters.
pub open spec fn is_token(s: Seq<char>) -> bool {
    s.len() == TOKEN_LEN && forall|i: int| 0 <= i < s.len() ==> is_alphanumeric(#[trigger] s[i])
}

/// Relies on rand's `Alphanumeric` distribution drawn from `thread_rng`: each of the
/// `count` characters is one of `A-Z`, `a-z`, `0-9`.
#[verifier::external_body]
fn rand_string(count: usize) -> (r: String)
    ensures
        r@.len() == count,
        forall|i: int| 0 <= i < r@.len() ==> is_alphanumeric(#[trigger] r@[i]),
{
    rand::thread_rng().sample_iter(rand::distributions::Alphanumeric).take(count).map(
        char::from,
    ).collect()
}

/// Source of the credentials that Basic and Digest authentication check against.
///
/// Users implement it for their own credential store.
pub trait AuthCheckPredicate {
    /// What a successful check attaches to the request.
    type CheckInfo;

    /// The user name that Digest authentication expects.
    fn username(&self) -> &str;

    /// The password that Digest authentication expects.
    fn password(&self) -> &str;
}

/// The `WWW-Authenticate` value of a Digest challenge.
pub open spec fn challenge_header(srv_name: Seq<char>, nonce: Seq<char>, opaque: Seq<char>) -> Seq<
    char,
> {
    "Digest realm=\"Login to "@ + srv_name + "\",qop=\"auth\",nonce=\""@ + nonce
        + "\",opaque=\""@ + opaque + "\""@
}

/// A refusal with status 401 that carries a fresh Digest challenge.
#[derive(Debug)]
pub struct Challenge {
    /// Value of the `WWW-Authenticate` header.
    pub www_authenticate: String,
    /// Body of the response.
    pub message: String,
    /// The nonce that the challenge issues.
    pub nonce: String,
    /// The opaque value that the challenge issues.
    pub opaque: String,
}

/// `c` is a fresh challenge for the server `srv_name`, and the ledger went from
/// `before` to `after` by issuing it.
pub open spec fn challenged(
    before: Seq<Token>,
    after: Seq<Token>,
    c: Challenge,
    srv_name: Seq<char>,
) -> bool {
    &&& is_token(c.nonce@)
    &&& is_token(c.opaque@)
    &&& c.www_authenticate@ == challenge_header(srv_name, c.nonce@, c.opaque@)
    &&& after == issued(before, (c.nonce@, c.opaque@))
}

/// Issues the challenge with the given nonce and opaque value: records them in the
/// ledger and renders the `WWW-Authenticate` header.
pub fn issue_challenge(
    nonces: &mut NonceLedger,
    msg: String,
    srv_name: &str,
    nonce: String,
    opaque: String,
) -> (r: Challenge)
    ensures
        r.message == msg,
        r.nonce == nonce,
        r.opaque == opaque,
        r.www_authenticate@ == challenge_header(srv_name@, nonce@, opaque@),
        final(nonces)@ == issued(old(nonces)@, (nonce@, opaque@)),
        old(nonces).wf() ==> final(nonces).wf(),
{
    let mut header = String::from_str("Digest realm=\"Login to ");
    header.append(srv_name);
    header.append("\",qop=\"auth\",nonce=\"");
    header.append(nonce.as_str());
    header.append("\",opaque=\"");
    header.append(opaque.as_str());
    header.append("\"");
    nonces.issue(nonce.clone(), opaque.clone());
    Challenge { www_authenticate: header, message: msg, nonce, opaque }
}

/// Issues a fresh challenge: draws a nonce and an opaque value, records them in the
/// ledger and renders the `WWW-Authenticate` header.
pub fn unauthorized(nonces: &mut NonceLedger, msg: String, srv_name: &str) -> (r: Challenge)
    ensures
        r.message == msg,
        challenged(old(nonces)@, final(nonces)@, r, srv_name@),
        old(nonces).wf() ==> final(nonces).wf(),
{
    let nonce = rand_string(TOKEN_LEN);
    let opaque = rand_string(TOKEN_LEN);
    issue_challenge(nonces, msg, srv_name, nonce, opaque)
}

pub open spec fn invalid_nonce_message() -> Seq<char> {
    "invalid nonce or opaque"@
}

pub open spec fn invalid_credentials_message() -> Seq<char> {
    "invalid username or password"@
}

/// The response value that the fields of a header call for.
pub open spec fn expected_response(
    fields: Seq<Seq<char>>,
    username: Seq<char>,
    password: Seq<char>,
    method: Seq<char>,
) -> Seq<char> {
    response_of(
        username,
        fields[1],
        password,
        method,
        fields[3],
        fields[2],
        fields[5],
        fields[6],
        fields[4],
    )
}

/// What checking a header's fields does: the newest challenge that answers to its nonce
/// or opaque value is consumed; without one the request is challenged anew; with one, the
/// request passes if and only if its response value is the expected one, and is
/// otherwise challenged anew.
pub open spec fn digest_checked(
    fields: Seq<Seq<char>>,
    username: Seq<char>,
    password: Seq<char>,
    method: Seq<char>,
    srv_name: Seq<char>,
    before: Seq<Token>,
    after: Seq<Token>,
    r: Result<(), Challenge>,
) -> bool {
    let (found, mid) = consumed(before, fields[2], fields[8]);
    if !found {
        &&& r is Err
        &&& r->Err_0.message@ == invalid_nonce_message()
        &&& challenged(before, after, r->Err_0, srv_name)
    } else if expected_response(fields, username, password, method) == fields[7] {
        &&& r is Ok
        &&& after == mid
    } else {
        &&& r is Err
        &&& r->Err_0.message@ == invalid_credentials_message()
        &&& challenged(mid, after, r->Err_0, srv_name)
    }
}

impl Authorization {
    /// Checks the header's answer against the outstanding challenges and the expected
    /// credentials, for a request with the given method.
    pub fn check(
        &self,
        username: &str,
        password: &str,
        method: &str,
        nonces: &mut NonceLedger,
        srv_name: &str,
    ) -> (r: Result<(), Challenge>)
        ensures
            digest_checked(
                self@,
                username@,
                password@,
                method@,
                srv_name@,
                old(nonces)@,
                final(nonces)@,
                r,
            ),
            old(nonces).wf() ==> final(nonces).wf(),
    {
        let found = nonces.take_matching(&self.nonce, &self.opaque);
        if !found {
            return Err(
                unauthorized(nonces, String::from_str("invalid nonce or opaque"), srv_name),
            );
        }
        let expected = digest_response(
            username,
            self.realm.as_str(),
            password,
            method,
            self.uri.as_str(),
            self.nonce.as_str(),
            self.nc.as_str(),
            self.cnonce.as_str(),
            self.qop.as_str(),
        );
        if !expected.eq(&self.response) {
            return Err(
                unauthorized(nonces, String::from_str("invalid username or password"), srv_name),
            );
        }
        Ok(())
    }
}

/// What a Digest-protected request leads to.
#[derive(Debug)]
pub enum DigestVerdict {
    /// The credentials hold: the request goes on, verified as this user.
    Accept { username: String },
    /// The header could not be read: status 400 with this body.
    BadRequest { message: String },
    /// Status 401 with a fresh challenge.
    Unauthorized(Challenge),
}

pub open spec fn bad_request_prefix() -> Seq<char> {
    "Bad request in header Authorization: "@
}

/// The text that tells a client why its header could not be read.
pub open spec fn fault_message(f: HeaderFault) -> Seq<char> {
    match f {
        HeaderFault::NotDigest => "only support digest authorization"@,
        HeaderFault::InvalidPart(p) => "invalid part of authorization: "@ + p,
    }
}

/// Body of the 400 response for a malformed `Authorization` header.
pub fn bad_request_message(detail: &str) -> (r: String)
    ensures
        r@ == bad_request_prefix() + detail@,
{
    let mut r = String::from_str("Bad request in header Authorization: ");
    r.append(detail);
    r
}

/// The (user name, password) that an `Authorization: Basic ...` value carries, if it
/// carries any.
pub uninterp spec fn basic_of(value: Seq<u8>) -> Option<(Seq<char>, Seq<char>)>;

pub open spec fn credentials_view(c: Option<(String, String)>) -> Option<(Seq<char>, Seq<char>)> {
    match c {
        Some((u, p)) => Some((u@, p@)),
        None => None,
    }
}

/// Relies on the `Authorization<Basic>` header of the headers crate (`Header::decode`,
/// then `username` and `password`): the credentials depend on the header value alone.
#[verifier::external_body]
fn decode_basic(value: &Vec<u8>) -> (r: Option<(String, String)>)
    ensures
        credentials_view(r) == basic_of(value@),
{
    let hv = http::HeaderValue::from_bytes(value).ok()?;
    let a = headers::Authorization::<headers::authorization::Basic>::decode(
        &mut std::iter::once(&hv),
    ).ok()?;
    Some((a.username().to_string(), a.password().to_string()))
}

/// The Basic credentials of a request, from its `Authorization` value (`None` when it
/// has none).
pub fn basic_credentials(header: Option<&Vec<u8>>) -> (r: Option<(String, String)>)
    ensures
        match header {
            None => r is None,
            Some(v) => credentials_view(r) == basic_of(v@),
        },
{
    match header {
        None => None,
        Some(v) => decode_basic(v),
    }
}

/// Basic authentication: every request must carry credentials that the checker accepts.
#[derive(Clone)]
pub struct AsyncBasicAuth<T> {
    inner: T,
    err: String,
}

/// A refusal with status 401 that asks for Basic credentials.
#[derive(Debug)]
pub struct BasicChallenge {
    /// Value of the `WWW-Authenticate` header.
    pub www_authenticate: String,
    /// Body of the response.
    pub message: String,
}

impl<T> AsyncBasicAuth<T> {
    pub closed spec fn checker(&self) -> T {
        self.inner
    }

    pub closed spec fn err(&self) -> Seq<char> {
        self.err@
    }

    /// Basic authentication against `p`, with the default refusal text.
    pub fn new(p: T) -> (r: Self)
        ensures
            r.checker() == p,
            r.err() == "Need basic authenticate"@,
    {
        AsyncBasicAuth { inner: p, err: String::from_str("Need basic authenticate") }
    }

    /// Replaces the text sent when a request carries no credentials.
    pub fn err_msg(self, msg: String) -> (r: Self)
        ensures
            r.checker() == self.checker(),
            r.err() == msg@,
    {
        AsyncBasicAuth { inner: self.inner, err: msg }
    }

    /// The credential checker.
    pub fn inner(&self) -> (r: &T)
        ensures
            *r == self.checker(),
    {
        &self.inner
    }

    /// The decision for a request: `outcome` is `None` when it carries no Basic
    /// credentials, else what the checker said of them, an error given by its debug
    /// rendering. Accepted credentials pass with what the checker returned.
    pub fn decide<C>(&self, outcome: Option<Result<C, String>>) -> (r: Result<C, BasicChallenge>)
        ensures
            match outcome {
                Some(Ok(ci)) => r == Ok::<C, BasicChallenge>(ci),
                Some(Err(e)) => r is Err && r->Err_0.message@ == "check authorization error: "@ + e@,
                None => r is Err && r->Err_0.message@ == self.err(),
            },
            r is Err ==> r->Err_0.www_authenticate@ == "Basic"@,
    {
        match outcome {
            Some(Ok(ci)) => Ok(ci),
            Some(Err(e)) => {
                let mut message = String::from_str("check authorization error: ");
                message.append(e.as_str());
                Err(BasicChallenge { www_authenticate: String::from_str("Basic"), message })
            },
            None => Err(
                BasicChallenge {
                    www_authenticate: String::from_str("Basic"),
                    message: self.err.clone(),
                },
            ),
        }
    }
}

/// Digest authentication: each request must answer a challenge that the server issued
/// and that has not been answered yet.
#[derive(Clone)]
pub struct AsyncDigestAuth<T> {
    inner: T,
    err: String,
    srv_name: String,
}

impl<T> AsyncDigestAuth<T> {
    pub closed spec fn checker(&self) -> T {
        self.inner
    }

    pub closed spec fn err(&self) -> Seq<char> {
        self.err@
    }

    pub closed spec fn name(&self) -> Seq<char> {
        self.srv_name@
    }

    /// Digest authentication against `p`, with the default server name and refusal text.
    pub fn new(p: T) -> (r: Self)
        ensures
            r.checker() == p,
            r.err() == "Need digest authenticate"@,
            r.name() == "spa-rs"@,
    {
        AsyncDigestAuth {
            inner: p,
            err: String::from_str("Need digest authenticate"),
            srv_name: String::from_str("spa-rs"),
        }
    }

    /// Replaces the server name shown in the realm (`Login to <name>`).
    pub fn srv_name(self, name: String) -> (r: Self)
        ensures
            r.checker() == self.checker(),
            r.err() == self.err(),
            r.name() == name@,
    {
        AsyncDigestAuth { inner: self.inner, err: self.err, srv_name: name }
    }

    /// Replaces the text sent when a request carries no credentials.
    pub fn err_msg(self, msg: String) -> (r: Self)
        ensures
            r.checker() == self.checker(),
            r.err() == msg@,
            r.name() == self.name(),
    {
        AsyncDigestAuth { inner: self.inner, err: msg, srv_name: self.srv_name }
    }

    /// The credential checker.
    pub fn inner(&self) -> (r: &T)
        ensures
            *r == self.checker(),
    {
        &self.inner
    }

    /// The decision for a request with the given `Authorization` value (`None` when the
    /// request has none), method, and the credentials that the checker expects.
    pub fn check_with(
        &self,
        header: Option<&str>,
        method: &str,
        username: &str,
        password: &str,
        nonces: &mut NonceLedger,
    ) -> (r: DigestVerdict)
        ensures
            old(nonces).wf() ==> final(nonces).wf(),
            match header {
                None => {
                    &&& r is Unauthorized
                    &&& r->Unauthorized_0.message@ == self.err()
                    &&& challenged(old(nonces)@, final(nonces)@, r->Unauthorized_0, self.name())
                },
                Some(h) => match parse_header(h@) {
                    Err(f) => {
                        &&& r is BadRequest
                        &&& r->BadRequest_message@ == bad_request_prefix() + fault_message(f)
                        &&& final(nonces)@ == old(nonces)@
                    },
                    Ok(fields) => {
                        let after = final(nonces)@;
                        match r {
                            DigestVerdict::Accept { username: user } => user@ == fields[0]
                                && digest_checked(
                                fields,
                                username@,
                                password@,
                                method@,
                                self.name(),
                                old(nonces)@,
                                after,
                                Ok(()),
                            ),
                            DigestVerdict::Unauthorized(c) => digest_checked(
                                fields,
                                username@,
                                password@,
                                method@,
                                self.name(),
                                old(nonces)@,
                                after,
                                Err(c),
                            ),
                            DigestVerdict::BadRequest { .. } => false,
                        }
                    },
                },
            },
    {
        match header {
            None => {
                let msg = self.err.clone();
                let c = unauthorized(nonces, msg, self.srv_name.as_str());
                DigestVerdict::Unauthorized(c)
            },
            Some(h) => match Authorization::from_header(h) {
                Err(e) => {
                    let detail = e.message();
                    proof {
                        assert(parsed_view(Err::<Authorization, HeaderError>(e)) == parse_header(h@));
                    }
                    DigestVerdict::BadRequest { message: bad_request_message(detail.as_str()) }
                },
                Ok(auth) => {
                    let res = auth.check(username, password, method, nonces, self.srv_name.as_str());
                    match res {
                        Ok(()) => DigestVerdict::Accept { username: auth.username.clone() },
                        Err(c) => DigestVerdict::Unauthorized(c),
                    }
                },
            },
        }
    }
}

/// A challenge answered with success cannot be answered again: checking the same
/// header once more, against the ledger that the first check left, refuses it as an
/// invalid nonce, provided the nonce or opaque value answered to one entry only.
pub proof fn lemma_replay_rejected(
    fields: Seq<Seq<char>>,
    username: Seq<char>,
    password: Seq<char>,
    method: Seq<char>,
    srv_name: Seq<char>,
    l0: Seq<Token>,
    l1: Seq<Token>,
    l2: Seq<Token>,
    first: Result<(), Challenge>,
    second: Result<(), Challenge>,
)
    requires
        fields.len() == crate::digest::FIELD_COUNT,
        forall|i: int, j: int|
            0 <= i < l0.len() && 0 <= j < l0.len() && crate::nonce::answers(
                #[trigger] l0[i],
                fields[2],
                fields[8],
            ) && crate::nonce::answers(#[trigger] l0[j], fields[2], fields[8]) ==> i == j,
        digest_checked(fields, username, password, method, srv_name, l0, l1, first),
        first is Ok,
        digest_checked(fields, username, password, method, srv_name, l1, l2, second),
    ensures
        second is Err,
        second->Err_0.message@ == invalid_nonce_message(),
{
    crate::nonce::lemma_consumed_not_reusable(l0, fields[2], fields[8], Seq::empty());
    assert(consumed(l0, fields[2], fields[8]).1 + Seq::<Token>::empty() =~= l1);
}

} // verus!
