use spa_rs::auth::{basic_credentials, issue_challenge, unauthorized, AsyncBasicAuth, AsyncDigestAuth, AuthCheckPredicate, DigestVerdict};
use spa_rs::digest::{digest_response, md5_hex_exec, to_hex, Authorization, HeaderError};
use spa_rs::nonce::{NonceLedger, NONCE_CAPACITY};

#[derive(Clone)]
struct Creds;

impl AuthCheckPredicate for Creds {
    type CheckInfo = String;

    fn username(&self) -> &str {
        "Mufasa"
    }

    fn password(&self) -> &str {
        "Circle Of Life"
    }
}

fn is_token(s: &str) -> bool {
    s.len() == 32 && s.chars().all(|c| c.is_ascii_alphanumeric())
}

#[test]
fn md5_known_answers() {
    assert_eq!(md5_hex_exec(""), "d41d8cd98f00b204e9800998ecf8427e");
    assert_eq!(md5_hex_exec("abc"), "900150983cd24fb0d6963f7d28e17f72");
}

#[test]
fn hex_is_lowercase_and_padded() {
    assert_eq!(to_hex(&[0x00, 0x0f, 0xa0, 0xff]), "000fa0ff");
    assert_eq!(to_hex(&[]), "");
}

#[test]
fn digest_response_known_answer() {
    let r = digest_response(
        "Mufasa",
        "testrealm@host.com",
        "Circle Of Life",
        "GET",
        "/dir/index.html",
        "dcd98b7102dd2f0e8b11d0f600bfb0c093",
        "00000001",
        "0a4f113b",
        "auth",
    );
    assert_eq!(r, "6629fae49393a05397450978507c4ef1");
}

#[test]
fn digest_response_is_deterministic() {
    let a = digest_response("u", "r", "p", "GET", "/", "n", "1", "c", "auth");
    let b = digest_response("u", "r", "p", "GET", "/", "n", "1", "c", "auth");
    assert_eq!(a, b);
    let c = digest_response("u", "r", "q", "GET", "/", "n", "1", "c", "auth");
    assert_ne!(a, c);
}

#[test]
fn parse_full_header() {
    let h = "Digest username=\"Mufasa\", realm=\"testrealm@host.com\", nonce=\"abc\", uri=\"/dir/index.html\", qop=auth, nc=00000001, cnonce=\"0a4f113b\", response=\"6629fae4\", opaque=\"5ccc069c\"";
    let a = Authorization::from_header(h).unwrap();
    assert_eq!(a.username, "Mufasa");
    assert_eq!(a.realm, "testrealm@host.com");
    assert_eq!(a.nonce, "abc");
    assert_eq!(a.uri, "/dir/index.html");
    assert_eq!(a.qop, "auth");
    assert_eq!(a.nc, "00000001");
    assert_eq!(a.cnonce, "0a4f113b");
    assert_eq!(a.response, "6629fae4");
    assert_eq!(a.opaque, "5ccc069c");
}

#[test]
fn parse_ignores_unknown_fields_and_trims() {
    let a = Authorization::from_header("Digest   algorithm=MD5 ,  username = \"x\",nonce=\"\"n\"\" , realm=  ").unwrap();
    assert_eq!(a.nonce, "n");
    assert_eq!(a.realm, "");
    // "username " keeps its trailing space and names no field
    assert_eq!(a.username, "");
}

#[test]
fn parse_later_field_wins() {
    let a = Authorization::from_header("Digest nonce=a,nonce=b").unwrap();
    assert_eq!(a.nonce, "b");
}

#[test]
fn parse_rejects_other_schemes() {
    assert_eq!(Authorization::from_header("Basic dXNlcjpwYXNz").unwrap_err(), HeaderError::NotDigest);
    assert_eq!(Authorization::from_header("Dig").unwrap_err(), HeaderError::NotDigest);
    assert_eq!(
        HeaderError::NotDigest.message(),
        "only support digest authorization"
    );
}

#[test]
fn parse_rejects_part_without_equals() {
    let e = Authorization::from_header("Digest username=\"a\", bogus ").unwrap_err();
    assert_eq!(e, HeaderError::InvalidPart { part: "bogus".to_string() });
    assert_eq!(e.message(), "invalid part of authorization: bogus");
    let e = Authorization::from_header("Digest").unwrap_err();
    assert_eq!(e, HeaderError::InvalidPart { part: String::new() });
    let e = Authorization::from_header("Digest a=1,").unwrap_err();
    assert_eq!(e, HeaderError::InvalidPart { part: String::new() });
}

#[test]
fn ledger_evicts_oldest_at_capacity() {
    let mut l = NonceLedger::new();
    for i in 0..NONCE_CAPACITY {
        l.issue(format!("n{}", i), format!("o{}", i));
    }
    assert_eq!(l.len(), 256);
    assert_eq!(l.entry(0), Some(("n0", "o0")));
    l.issue("new".to_string(), "newo".to_string());
    assert_eq!(l.len(), 256);
    assert_eq!(l.entry(0), Some(("n1", "o1")));
    assert_eq!(l.entry(255), Some(("new", "newo")));
    assert_eq!(l.entry(256), None);
}

#[test]
fn ledger_take_matching_removes_newest_match() {
    let mut l = NonceLedger::new();
    l.issue("a".to_string(), "x".to_string());
    l.issue("b".to_string(), "y".to_string());
    l.issue("c".to_string(), "x".to_string());
    assert!(l.take_matching(&"zz".to_string(), &"x".to_string()));
    assert_eq!(l.len(), 2);
    assert_eq!(l.entry(1), Some(("b", "y")));
    assert!(l.take_matching(&"b".to_string(), &"none".to_string()));
    assert!(!l.take_matching(&"b".to_string(), &"none".to_string()));
    assert_eq!(l.len(), 1);
}

fn answer(nonce: &str, opaque: &str, password: &str) -> String {
    let resp = digest_response(
        "Mufasa", "Login to spa-rs", password, "GET", "/api/get", nonce, "00000001", "abcd", "auth",
    );
    format!(
        "Digest username=\"Mufasa\", realm=\"Login to spa-rs\", nonce=\"{}\", uri=\"/api/get\", qop=auth, nc=00000001, cnonce=\"abcd\", response=\"{}\", opaque=\"{}\"",
        nonce, resp, opaque
    )
}

#[test]
fn unauthenticated_request_gets_challenge() {
    let auth = AsyncDigestAuth::new(Creds);
    let mut l = NonceLedger::new();
    match auth.check_with(None, "GET", "Mufasa", "Circle Of Life", &mut l) {
        DigestVerdict::Unauthorized(c) => {
            assert_eq!(c.message, "Need digest authenticate");
            assert!(is_token(&c.nonce));
            assert!(is_token(&c.opaque));
            assert_eq!(
                c.www_authenticate,
                format!(
                    "Digest realm=\"Login to spa-rs\",qop=\"auth\",nonce=\"{}\",opaque=\"{}\"",
                    c.nonce, c.opaque
                )
            );
            assert_eq!(l.len(), 1);
            assert_eq!(l.entry(0), Some((c.nonce.as_str(), c.opaque.as_str())));
        }
        v => panic!("unexpected verdict {:?}", v),
    }
}

#[test]
fn digest_accepts_once_then_rejects_replay() {
    let auth = AsyncDigestAuth::new(Creds).srv_name("spa-rs".to_string());
    let mut l = NonceLedger::new();
    let c = match auth.check_with(None, "GET", "Mufasa", "Circle Of Life", &mut l) {
        DigestVerdict::Unauthorized(c) => c,
        v => panic!("unexpected verdict {:?}", v),
    };
    let h = answer(&c.nonce, &c.opaque, "Circle Of Life");
    let u = auth.inner().username().to_string();
    let p = auth.inner().password().to_string();
    match auth.check_with(Some(&h), "GET", &u, &p, &mut l) {
        DigestVerdict::Accept { username } => assert_eq!(username, "Mufasa"),
        v => panic!("unexpected verdict {:?}", v),
    }
    assert_eq!(l.len(), 0);
    match auth.check_with(Some(&h), "GET", &u, &p, &mut l) {
        DigestVerdict::Unauthorized(c2) => {
            assert_eq!(c2.message, "invalid nonce or opaque");
            assert_ne!(c2.nonce, c.nonce);
        }
        v => panic!("unexpected verdict {:?}", v),
    }
    assert_eq!(l.len(), 1);
}

#[test]
fn digest_rejects_wrong_password() {
    let auth = AsyncDigestAuth::new(Creds).err_msg("login first".to_string());
    let mut l = NonceLedger::new();
    let c = match auth.check_with(None, "GET", "Mufasa", "Circle Of Life", &mut l) {
        DigestVerdict::Unauthorized(c) => c,
        v => panic!("unexpected verdict {:?}", v),
    };
    assert_eq!(c.message, "login first");
    let h = answer(&c.nonce, &c.opaque, "wrong");
    match auth.check_with(Some(&h), "GET", "Mufasa", "Circle Of Life", &mut l) {
        DigestVerdict::Unauthorized(c2) => {
            assert_eq!(c2.message, "invalid username or password");
            assert!(is_token(&c2.nonce));
        }
        v => panic!("unexpected verdict {:?}", v),
    }
    // the answered challenge is gone, the fresh one is outstanding
    assert_eq!(l.len(), 1);
    assert_ne!(l.entry(0).unwrap().0, c.nonce.as_str());
}

#[test]
fn digest_rejects_wrong_method() {
    let auth = AsyncDigestAuth::new(Creds);
    let mut l = NonceLedger::new();
    let c = match auth.check_with(None, "GET", "Mufasa", "Circle Of Life", &mut l) {
        DigestVerdict::Unauthorized(c) => c,
        v => panic!("unexpected verdict {:?}", v),
    };
    let h = answer(&c.nonce, &c.opaque, "Circle Of Life");
    match auth.check_with(Some(&h), "POST", "Mufasa", "Circle Of Life", &mut l) {
        DigestVerdict::Unauthorized(c2) => assert_eq!(c2.message, "invalid username or password"),
        v => panic!("unexpected verdict {:?}", v),
    }
}

#[test]
fn digest_malformed_header_is_bad_request() {
    let auth = AsyncDigestAuth::new(Creds);
    let mut l = NonceLedger::new();
    match auth.check_with(Some("Basic abc"), "GET", "u", "p", &mut l) {
        DigestVerdict::BadRequest { message } => assert_eq!(
            message,
            "Bad request in header Authorization: only support digest authorization"
        ),
        v => panic!("unexpected verdict {:?}", v),
    }
    match auth.check_with(Some("Digest nonce"), "GET", "u", "p", &mut l) {
        DigestVerdict::BadRequest { message } => assert_eq!(
            message,
            "Bad request in header Authorization: invalid part of authorization: nonce"
        ),
        v => panic!("unexpected verdict {:?}", v),
    }
    assert_eq!(l.len(), 0);
}

#[test]
fn basic_decisions() {
    let auth = AsyncBasicAuth::new(Creds);
    let r = auth.decide::<u32>(None).unwrap_err();
    assert_eq!(r.www_authenticate, "Basic");
    assert_eq!(r.message, "Need basic authenticate");
    let auth = auth.err_msg("who are you".to_string());
    assert_eq!(auth.decide::<u32>(None).unwrap_err().message, "who are you");
    let r = auth.decide::<u32>(Some(Err("Denied".to_string()))).unwrap_err();
    assert_eq!(r.message, "check authorization error: Denied");
    assert_eq!(auth.decide(Some(Ok(7u32))).unwrap(), 7);
    assert_eq!(auth.inner().username(), "Mufasa");
}

#[test]
fn challenge_header_for_given_tokens() {
    let mut l = NonceLedger::new();
    let c = issue_challenge(&mut l, "m".to_string(), "demo", "N1".to_string(), "O1".to_string());
    assert_eq!(c.www_authenticate, "Digest realm=\"Login to demo\",qop=\"auth\",nonce=\"N1\",opaque=\"O1\"");
    assert_eq!(c.message, "m");
    assert_eq!(l.entry(0), Some(("N1", "O1")));
}

#[test]
fn fresh_challenges_differ() {
    let mut l = NonceLedger::new();
    let a = unauthorized(&mut l, "x".to_string(), "s");
    let b = unauthorized(&mut l, "x".to_string(), "s");
    assert!(is_token(&a.nonce) && is_token(&a.opaque));
    assert_ne!(a.nonce, b.nonce);
    assert_eq!(l.len(), 2);
}

#[test]
fn basic_credentials_decoded() {
    let v = b"Basic dXNlcjpwYXNz".to_vec();
    assert_eq!(basic_credentials(Some(&v)), Some(("user".to_string(), "pass".to_string())));
    let v = b"Basic bm9jb2xvbg==".to_vec();
    assert_eq!(basic_credentials(Some(&v)), None);
    let v = b"Digest username=x".to_vec();
    assert_eq!(basic_credentials(Some(&v)), None);
    assert_eq!(basic_credentials(None), None);
}

#[test]
fn parse_trims_value_whitespace_then_quotes() {
    let a = Authorization::from_header("Digest nc= \"x\", qop=\t auth ,cnonce=\" in \"").unwrap();
    assert_eq!(a.nc, "x");
    assert_eq!(a.qop, "auth");
    assert_eq!(a.cnonce, " in ");
}
