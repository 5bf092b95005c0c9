use spa_rs::filter::{route, Dispatch, FilterEx, FilterExLayer, AsyncFilterEx, AsyncFilterExLayer, Predicate, AsyncPredicate};
use spa_rs::server::{proxy_allows, Fallback, SpaConfig, DEFAULT_PORT};
use spa_rs::session::SessionStore;

#[derive(Clone, Debug, PartialEq)]
struct User(u32);

fn cookies(pairs: &[(&str, &str)]) -> Vec<(String, String)> {
    pairs.iter().map(|(k, v)| (k.to_string(), v.to_string())).collect()
}

#[test]
fn session_store_insert_get_replace() {
    let mut s = SessionStore::new("my_session".to_string());
    assert_eq!(s.key(), "my_session");
    assert_eq!(s.get(&"a".to_string()), None);
    s.insert("a".to_string(), User(1));
    s.insert("b".to_string(), User(2));
    s.insert("a".to_string(), User(3));
    assert_eq!(s.get(&"a".to_string()), Some(&User(3)));
    assert_eq!(s.get(&"b".to_string()), Some(&User(2)));
}

#[test]
fn session_store_remove_by_value() {
    let mut s = SessionStore::new("k".to_string());
    s.insert("a".to_string(), User(1));
    s.insert("b".to_string(), User(2));
    s.insert("c".to_string(), User(1));
    s.remove(&User(1));
    assert_eq!(s.get(&"a".to_string()), None);
    assert_eq!(s.get(&"c".to_string()), None);
    assert_eq!(s.get(&"b".to_string()), Some(&User(2)));
}

#[test]
fn require_session_forwards_only_known_keys() {
    let mut s = SessionStore::new("my_session".to_string());
    s.insert("id1".to_string(), User(1));
    assert_eq!(s.lookup(&cookies(&[("my_session", "id1")])), Some(&User(1)));
    assert_eq!(s.lookup(&cookies(&[("other", "x"), ("my_session", "id1")])), Some(&User(1)));
    assert_eq!(s.lookup(&cookies(&[("my_session", "nope")])), None);
    assert_eq!(s.lookup(&cookies(&[("other", "id1")])), None);
    assert_eq!(s.lookup(&cookies(&[])), None);
    assert_eq!(
        s.lookup(&cookies(&[("my_session", "nope"), ("my_session", "id1")])),
        Some(&User(1))
    );
    s.remove(&User(1));
    assert_eq!(s.lookup(&cookies(&[("my_session", "id1")])), None);
}

#[test]
fn require_session_reads_cookie_header() {
    let mut s = SessionStore::new("my_session".to_string());
    s.insert("id1".to_string(), User(1));
    let values = vec![b"lang=en; my_session=id1".to_vec()];
    assert_eq!(s.lookup_header(&values), Some(&User(1)));
    let values = vec![b"lang=en".to_vec(), b"my_session=id1".to_vec()];
    assert_eq!(s.lookup_header(&values), Some(&User(1)));
    let values = vec![b"my_session=id2".to_vec()];
    assert_eq!(s.lookup_header(&values), None);
    assert_eq!(s.lookup_header(&vec![]), None);
}

#[derive(Clone)]
struct EvenOnly;

impl Predicate<u32> for EvenOnly {
    type Request = u32;
    type Response = String;

    fn check(&self, request: u32) -> Result<u32, String> {
        if request % 2 == 0 {
            Ok(request / 2)
        } else {
            Err(format!("odd {}", request))
        }
    }
}

impl AsyncPredicate<u32> for EvenOnly {
    type Request = u32;
    type Response = String;
    type Future = std::future::Ready<Result<u32, String>>;

    fn check(&self, request: u32) -> Self::Future {
        std::future::ready(Predicate::check(self, request))
    }
}

#[test]
fn route_forwards_success_and_answers_failure() {
    match route::<u32, String>(Ok(4)) {
        Dispatch::Forward(q) => assert_eq!(q, 4),
        Dispatch::Respond(_) => panic!("should forward"),
    }
    match route::<u32, String>(Err("no".to_string())) {
        Dispatch::Respond(s) => assert_eq!(s, "no"),
        Dispatch::Forward(_) => panic!("should respond"),
    }
}

#[test]
fn filter_calls_handler_once_on_success_only() {
    let mut calls = 0u32;
    let mut f = FilterEx::new(0u32, EvenOnly);
    for req in [2u32, 3, 8] {
        match route(f.check(req)) {
            Dispatch::Forward(q) => {
                calls += 1;
                *f.get_mut() += q;
            }
            Dispatch::Respond(s) => assert_eq!(s, "odd 3"),
        }
    }
    assert_eq!(calls, 2);
    assert_eq!(*f.get_ref(), 5);
    assert_eq!(f.into_inner(), 5);
    let layer: FilterExLayer<EvenOnly> = FilterEx::<u32, EvenOnly>::layer(EvenOnly);
    assert!(Predicate::check(layer.predicate(), 6).is_ok());
    let layer2 = FilterExLayer::new(EvenOnly);
    assert!(Predicate::check(layer2.predicate(), 5).is_err());
}

#[test]
fn async_filter_accessors() {
    let mut f = AsyncFilterEx::new(String::from("svc"), EvenOnly);
    let fut = f.check(10u32);
    assert_eq!(fut.into_inner(), Ok(5));
    f.get_mut().push('!');
    assert_eq!(f.get_ref(), "svc!");
    assert_eq!(f.into_inner(), "svc!");
    let layer: AsyncFilterExLayer<EvenOnly, u32> = AsyncFilterEx::<(), EvenOnly>::layer(EvenOnly);
    let l2 = layer.clone();
    assert!(AsyncPredicate::check(l2.predicate(), 3).into_inner().is_err());
    let _ = AsyncFilterExLayer::<EvenOnly, u32>::new(EvenOnly);
}

#[test]
fn config_defaults_and_builders() {
    let c = SpaConfig::new("/tmp/rel".to_string());
    assert_eq!(c.listen_port(), DEFAULT_PORT);
    assert_eq!(c.listen_port(), 8080);
    assert_eq!(c.release_dir(), "/tmp/rel");
    assert_eq!(c.fallback(true), Fallback::Embedded);
    assert_eq!(c.fallback(false), Fallback::NotFound);
    let c = c
        .port(3000)
        .static_path("/png".to_string(), "web".to_string())
        .static_path("/css".to_string(), "style".to_string())
        .release_path("/var/x".to_string());
    assert_eq!(c.listen_port(), 3000);
    assert_eq!(c.release_dir(), "/var/x");
    assert_eq!(
        c.mounts(),
        &vec![("/png".to_string(), "web".to_string()), ("/css".to_string(), "style".to_string())]
    );
    let c = c.reverse_proxy("localhost:1234".to_string());
    assert_eq!(c.fallback(true), Fallback::Proxy { addr: "localhost:1234".to_string() });
    assert_eq!(c.fallback(false), Fallback::NotFound);
}

#[test]
fn host_matching_by_suffix() {
    let mut c = SpaConfig::new("r".to_string());
    assert_eq!(c.match_host("example.com"), None);
    assert_eq!(c.add_host("api.example.com".to_string()), 0);
    assert_eq!(c.add_host("example.org".to_string()), 1);
    assert_eq!(c.add_host("api.example.com".to_string()), 0);
    assert_eq!(c.match_host("v1.api.example.com"), Some(0));
    assert_eq!(c.match_host("example.org"), Some(1));
    assert_eq!(c.match_host("example.com"), None);
    assert_eq!(c.match_host(""), None);
}

#[test]
fn proxy_only_for_get() {
    assert!(proxy_allows("GET"));
    assert!(!proxy_allows("POST"));
    assert!(!proxy_allows("get"));
    assert!(!proxy_allows("GETS"));
}

#[test]
fn session_store_remove_keeps_other_keys() {
    let mut s = SessionStore::new("k".to_string());
    s.insert("a".to_string(), User(1));
    s.insert("a".to_string(), User(2));
    s.remove(&User(1));
    assert_eq!(s.get(&"a".to_string()), Some(&User(2)));
    s.remove(&User(2));
    assert_eq!(s.get(&"a".to_string()), None);
}
