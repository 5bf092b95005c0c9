//! Cookie-keyed session storage: a map from session key to session data, and the
//! lookup that decides whether a request belongs to a session.
use vstd::prelude::*;
use headers::Header;
use vstd::std_specs::cmp::PartialEqSpec;

verus! {

/// Position of the first entry with key `k`, or -1.
pub open spec fn key_pos<T>(s: Seq<(Seq<char>, T)>, k: Seq<char>) -> int
    decreases s.len(),
{
    if s.len() == 0 {
        -1
    } else if s[0].0 == k {
        0
    } else {
        let r = key_pos(s.drop_first(), k);
        if r < 0 {
            -1
        } else {
            r + 1
        }
    }
}

/// The map that a list of entries stands for: each key to the value of its first entry.
pub open spec fn as_map<T>(s: Seq<(Seq<char>, T)>) -> Map<Seq<char>, T> {
    Map::new(|k: Seq<char>| key_pos(s, k) >= 0, |k: Seq<char>| s[key_pos(s, k)].1)
}

/// `key_pos` is the first index with the key, or -1 when no entry has it.
pub proof fn lemma_key_pos<T>(s: Seq<(Seq<char>, T)>, k: Seq<char>)
    ensures
        -1 <= key_pos(s, k) < s.len(),
        key_pos(s, k) >= 0 ==> s[key_pos(s, k)].0 == k,
        forall|j: int| 0 <= j < s.len() && (key_pos(s, k) < 0 || j < key_pos(s, k)) ==> (
        #[trigger] s[j]).0 != k,
    decreases s.len(),
{
    if s.len() > 0 && s[0].0 != k {
        lemma_key_pos(s.drop_first(), k);
        assert forall|j: int| 0 < j < s.len() implies #[trigger] s[j] == s.drop_first()[j - 1] by {}
    }
}

/// The first index that holds `k` and follows only entries without it is `key_pos`.
pub proof fn lemma_key_pos_unique<T>(s: Seq<(Seq<char>, T)>, k: Seq<char>, p: int)
    requires
        -1 <= p < s.len(),
        p >= 0 ==> s[p].0 == k,
        forall|j: int| 0 <= j < s.len() && (p < 0 || j < p) ==> (#[trigger] s[j]).0 != k,
    ensures
        key_pos(s, k) == p,
{
    lemma_key_pos(s, k);
    let q = key_pos(s, k);
    if q >= 0 && (p < 0 || q < p) {
        assert(s[q].0 != k);
    }
    if p >= 0 && (q < 0 || p < q) {
        assert(s[p].0 != k);
    }
}

/// No two entries share a key.
pub open spec fn keys_unique<T>(s: Seq<(Seq<char>, T)>) -> bool {
    forall|i: int, j: int|
        0 <= i < s.len() && 0 <= j < s.len() && i != j ==> (#[trigger] s[i]).0 != (#[trigger] s[j]).0
}

/// The map without the keys whose session equals `v`.
pub open spec fn without_value<T: PartialEq>(m: Map<Seq<char>, T>, v: &T) -> Map<Seq<char>, T> {
    Map::new(|k: Seq<char>| m.contains_key(k) && !m[k].eq_spec(v), |k: Seq<char>| m[k])
}

/// Appending an entry whose key is not yet present adds that key to the map.
pub proof fn lemma_as_map_push<T>(s: Seq<(Seq<char>, T)>, k: Seq<char>, x: T)
    requires
        forall|i: int| 0 <= i < s.len() ==> (#[trigger] s[i]).0 != k,
    ensures
        as_map(s.push((k, x))) == as_map(s).insert(k, x),
{
    let t = s.push((k, x));
    assert forall|y: Seq<char>|
        #[trigger] key_pos(t, y) == (if y == k {
            s.len() as int
        } else {
            key_pos(s, y)
        }) && key_pos(s, y) < s.len() by {
        lemma_key_pos(s, y);
        if y == k {
            lemma_key_pos_unique(s, y, -1);
            lemma_key_pos_unique(t, y, s.len() as int);
        } else {
            lemma_key_pos_unique(t, y, key_pos(s, y));
        }
    }
    assert(as_map(t) =~= as_map(s).insert(k, x));
}

/// The entries whose session differs from `v`.
pub open spec fn kept<T: PartialEq>(s: Seq<(Seq<char>, T)>, v: &T) -> Seq<(Seq<char>, T)> {
    s.filter(|e: (Seq<char>, T)| !e.1.eq_spec(v))
}

/// Dropping the entries whose session equals `v` from entries with distinct keys keeps
/// the keys distinct and drops exactly those keys from the map.
pub proof fn lemma_filter_without_value<T: PartialEq>(s: Seq<(Seq<char>, T)>, v: &T)
    requires
        keys_unique(s),
    ensures
        keys_unique(kept(s, v)),
        as_map(kept(s, v)) == without_value(as_map(s), v),
        forall|i: int|
            0 <= i < kept(s, v).len() ==> as_map(s).contains_key(
                (#[trigger] kept(s, v)[i]).0,
            ),
    decreases s.len(),
{
    let pred = |e: (Seq<char>, T)| !e.1.eq_spec(v);
    reveal(Seq::filter);
    if s.len() == 0 {
        assert(as_map(s.filter(pred)) =~= without_value(as_map(s), v));
    } else {
        let s0 = s.drop_last();
        let e = s.last();
        assert(keys_unique(s0)) by {
            assert forall|i: int, j: int|
                0 <= i < s0.len() && 0 <= j < s0.len() && i != j implies (#[trigger] s0[i]).0
                != (#[trigger] s0[j]).0 by {
                assert(s0[i] == s[i] && s0[j] == s[j]);
            }
        }
        lemma_filter_without_value(s0, v);
        let f0 = s0.filter(pred);
        assert(f0 == kept(s0, v));
        assert forall|i: int| 0 <= i < s0.len() implies (#[trigger] s0[i]).0 != e.0 by {
            assert(s0[i] == s[i]);
            assert(s[s.len() - 1] == e);
        }
        assert(s =~= s0.push(e));
        lemma_as_map_push(s0, e.0, e.1);
        lemma_key_pos_unique(s0, e.0, -1);
        assert forall|i: int| 0 <= i < f0.len() implies (#[trigger] f0[i]).0 != e.0 by {
            assert(as_map(s0).contains_key(f0[i].0));
        }
        if pred(e) {
            assert(s.filter(pred) == f0.push(e));
            lemma_as_map_push(f0, e.0, e.1);
            assert(as_map(s.filter(pred)) =~= without_value(as_map(s), v));
            assert forall|i: int, j: int|
                0 <= i < f0.len() + 1 && 0 <= j < f0.len() + 1 && i != j implies (#[trigger] f0.push(
                e,
            )[i]).0 != (#[trigger] f0.push(e)[j]).0 by {}
            assert forall|i: int| 0 <= i < f0.len() + 1 implies as_map(s).contains_key(
                (#[trigger] f0.push(e)[i]).0,
            ) by {}
        } else {
            assert(s.filter(pred) == f0);
            assert(as_map(s.filter(pred)) =~= without_value(as_map(s), v));
        }
    }
}

/// Storage of sessions under their keys, read from the cookie named `key`.
pub struct SessionStore<T> {
    key: String,
    sessions: Vec<(String, T)>,
}

impl<T> SessionStore<T> {
    /// Name of the cookie that carries the session key.
    pub closed spec fn cookie_name(&self) -> Seq<char> {
        self.key@
    }

    /// The stored entries, oldest key first.
    pub closed spec fn entries(&self) -> Seq<(Seq<char>, T)> {
        self.sessions@.map_values(|e: (String, T)| (e.0@, e.1))
    }

    /// The sessions by key.
    pub open spec fn sessions(&self) -> Map<Seq<char>, T> {
        as_map(self.entries())
    }

    /// Each key is stored once.
    pub open spec fn wf(&self) -> bool {
        keys_unique(self.entries())
    }

    /// An empty store whose sessions are read from the cookie `key`.
    pub fn new(key: String) -> (r: Self)
        ensures
            r.cookie_name() == key@,
            r.entries() == Seq::<(Seq<char>, T)>::empty(),
            r.sessions() == Map::<Seq<char>, T>::empty(),
            r.wf(),
    {
        let r = SessionStore { key, sessions: Vec::new() };
        assert(r.entries() =~= Seq::<(Seq<char>, T)>::empty());
        assert(r.sessions() =~= Map::<Seq<char>, T>::empty());
        r
    }

    /// Name of the cookie that carries the session key.
    pub fn key(&self) -> (r: &str)
        ensures
            r@ == self.cookie_name(),
    {
        self.key.as_str()
    }

    /// Position of the entry with key `k`, if there is one.
    fn position(&self, k: &String) -> (r: Option<usize>)
        ensures
            match r {
                Some(p) => p == key_pos(self.entries(), k@) && p < self.entries().len(),
                None => key_pos(self.entries(), k@) < 0,
            },
    {
        let ghost s = self.entries();
        let mut i: usize = 0;
        while i < self.sessions.len()
            invariant
                s == self.entries(),
                i <= s.len(),
                forall|j: int| 0 <= j < i ==> (#[trigger] s[j]).0 != k@,
            decreases s.len() - i,
        {
            assert(s[i as int].0 == self.sessions@[i as int].0@);
            if self.sessions[i].0.eq(k) {
                proof {
                    lemma_key_pos_unique(s, k@, i as int);
                }
                return Some(i);
            }
            i = i + 1;
        }
        proof {
            lemma_key_pos_unique(s, k@, -1);
        }
        None
    }

    /// The session stored under `k`.
    pub fn get(&self, k: &String) -> (r: Option<&T>)
        ensures
            match r {
                Some(t) => self.sessions().contains_key(k@) && *t == self.sessions()[k@],
                None => !self.sessions().contains_key(k@),
            },
    {
        match self.position(k) {
            Some(p) => Some(&self.sessions[p].1),
            None => None,
        }
    }

    /// Stores `v` under `k`, replacing what was stored there.
    pub fn insert(&mut self, k: String, v: T)
        ensures
            final(self).cookie_name() == old(self).cookie_name(),
            final(self).sessions() == old(self).sessions().insert(k@, v),
            old(self).wf() ==> final(self).wf(),
    {
        let ghost s = self.entries();
        let ghost kv = k@;
        match self.position(&k) {
            Some(p) => {
                self.sessions.set(p, (k, v));
                proof {
                    let t = self.entries();
                    assert(t =~= s.update(p as int, (kv, v)));
                    assert forall|x: Seq<char>|
                        #[trigger] key_pos(t, x) == key_pos(s, x) && key_pos(s, x) < s.len() && (
                        key_pos(s, x) >= 0 ==> t[key_pos(s, x)] == (if x == kv {
                            (kv, v)
                        } else {
                            s[key_pos(s, x)]
                        })) by {
                        lemma_key_pos(s, x);
                        lemma_key_pos(s, kv);
                        lemma_key_pos_unique(t, x, key_pos(s, x));
                    }
                    assert(self.sessions() =~= old(self).sessions().insert(kv, v));
                    lemma_key_pos(s, kv);
                    assert forall|i: int| 0 <= i < t.len() implies (#[trigger] t[i]).0 == s[i].0 by {}
                }
            },
            None => {
                self.sessions.push((k, v));
                proof {
                    let t = self.entries();
                    assert(t =~= s.push((kv, v)));
                    assert forall|x: Seq<char>|
                        #[trigger] key_pos(t, x) == (if x == kv {
                            s.len() as int
                        } else {
                            key_pos(s, x)
                        }) && key_pos(s, x) < s.len() by {
                        lemma_key_pos(s, x);
                        if x == kv {
                            lemma_key_pos_unique(t, x, s.len() as int);
                        } else {
                            lemma_key_pos_unique(t, x, key_pos(s, x));
                        }
                    }
                    assert(self.sessions() =~= old(self).sessions().insert(kv, v));
                    lemma_key_pos(s, kv);
                    assert forall|i: int| 0 <= i < s.len() implies (#[trigger] t[i]).0 != kv by {
                        assert(t[i] == s[i]);
                    }
                }
            },
        }
    }

    /// Removes every entry whose session equals `v`.
    pub fn remove(&mut self, v: &T)
        where
            T: PartialEq,
        ensures
            final(self).cookie_name() == old(self).cookie_name(),
            T::obeys_eq_spec() ==> final(self).entries() == old(self).entries().filter(
                |e: (Seq<char>, T)| !e.1.eq_spec(v),
            ),
            T::obeys_eq_spec() && old(self).wf() ==> final(self).wf() && final(self).sessions()
                == without_value(old(self).sessions(), v),
    {
        let ghost s = self.entries();
        let ghost pred = |e: (Seq<char>, T)| !e.1.eq_spec(v);
        let ghost mut j: int = 0;
        let mut i: usize = 0;
        while i < self.sessions.len()
            invariant
                0 <= i <= j <= s.len(),
                self.cookie_name() == old(self).cookie_name(),
                T::obeys_eq_spec() ==> self.entries() == s.take(j).filter(pred) + s.skip(j),
                T::obeys_eq_spec() ==> s.take(j).filter(pred).len() == i,
                self.entries().len() == i + (s.len() - j),
                s == old(self).entries(),
                pred == (|e: (Seq<char>, T)| !e.1.eq_spec(v)),
            decreases self.sessions@.len() - i,
        {
            let ghost cur = self.entries();
            let ghost done = s.take(j).filter(pred);
            proof {
                reveal(Seq::filter);
                assert(s.take(j + 1).drop_last() =~= s.take(j));
                assert(s.take(j + 1).last() == s[j]);
                if T::obeys_eq_spec() {
                    assert(cur[i as int] == (done + s.skip(j))[i as int]);
                    assert(cur[i as int] == s[j]);
                    assert(s.skip(j).drop_first() =~= s.skip(j + 1));
                }
            }
            let same = self.sessions[i].1.eq(v);
            proof {
                assert(cur[i as int] == (self.sessions@[i as int].0@, self.sessions@[i as int].1));
                assert(T::obeys_eq_spec() ==> same == self.sessions@[i as int].1.eq_spec(v));
            }
            if same {
                self.sessions.remove(i);
                proof {
                    assert(self.entries() =~= cur.remove(i as int));
                    if T::obeys_eq_spec() {
                        assert(!pred(s[j]));
                        assert(s.take(j + 1).filter(pred) == done);
                        assert(cur.remove(i as int) =~= done + s.skip(j + 1));
                    }
                    j = j + 1;
                }
            } else {
                proof {
                    if T::obeys_eq_spec() {
                        assert(pred(s[j]));
                        assert(s.take(j + 1).filter(pred) == done.push(s[j]));
                        assert(cur =~= done.push(s[j]) + s.skip(j + 1));
                    }
                    j = j + 1;
                }
                i = i + 1;
            }
        }
        proof {
            assert(s.take(j) =~= s);
            assert(s.skip(j) =~= Seq::<(Seq<char>, T)>::empty());
            if T::obeys_eq_spec() {
                assert(self.entries() =~= s.filter(pred));
                if old(self).wf() {
                    lemma_filter_without_value(s, v);
                }
            }
        }
    }
}

/// The (name, value) pairs that a request's `Cookie` header values carry.
pub uninterp spec fn cookies_of(values: Seq<Seq<u8>>) -> Seq<(Seq<char>, Seq<char>)>;

pub open spec fn bytes_view(values: Seq<Vec<u8>>) -> Seq<Seq<u8>> {
    values.map_values(|v: Vec<u8>| v@)
}

pub open spec fn pairs_view(cookies: Seq<(String, String)>) -> Seq<(Seq<char>, Seq<char>)> {
    cookies.map_values(|p: (String, String)| (p.0@, p.1@))
}

/// Relies on the `Cookie` header of the headers crate (`Header::decode`, then
/// `Cookie::iter`): the pairs depend on the header values alone.
#[verifier::external_body]
fn cookie_pairs(values: &Vec<Vec<u8>>) -> (r: Vec<(String, String)>)
    ensures
        pairs_view(r@) == cookies_of(bytes_view(values@)),
{
    let parsed: Option<Vec<http::HeaderValue>> = values.iter().map(
        |v| http::HeaderValue::from_bytes(v).ok(),
    ).collect();
    match parsed.and_then(|hv| headers::Cookie::decode(&mut hv.iter()).ok()) {
        Some(c) => c.iter().map(|(k, v)| (k.to_string(), v.to_string())).collect(),
        None => Vec::new(),
    }
}

/// Cookie `c` names the store's cookie and carries a key that the store holds.
pub open spec fn opens_session<T>(
    cookies: Seq<(Seq<char>, Seq<char>)>,
    c: int,
    store: &SessionStore<T>,
) -> bool {
    &&& cookies[c].0 == store.cookie_name()
    &&& store.sessions().contains_key(cookies[c].1)
}

/// The session that cookies open: that of the first cookie whose name is the store's
/// cookie name and whose value is a stored key; none when no cookie does.
pub open spec fn session_for<T>(
    cookies: Seq<(Seq<char>, Seq<char>)>,
    store: &SessionStore<T>,
) -> Option<T>
    decreases cookies.len(),
{
    if cookies.len() == 0 {
        None
    } else if opens_session(cookies, 0, store) {
        Some(store.sessions()[cookies[0].1])
    } else {
        session_for(cookies.drop_first(), store)
    }
}

/// A request has a session exactly when one of its cookies has the store's cookie
/// name and a value that the store holds as a key at that moment.
pub proof fn lemma_session_iff_stored<T>(
    cookies: Seq<(Seq<char>, Seq<char>)>,
    store: &SessionStore<T>,
)
    ensures
        session_for(cookies, store) is Some <==> exists|c: int|
            0 <= c < cookies.len() && #[trigger] opens_session(cookies, c, store),
        session_for(cookies, store) matches Some(t) ==> exists|c: int|
            0 <= c < cookies.len() && #[trigger] opens_session(cookies, c, store) && t
                == store.sessions()[cookies[c].1],
    decreases cookies.len(),
{
    if cookies.len() > 0 && !opens_session(cookies, 0, store) {
        let rest = cookies.drop_first();
        lemma_session_iff_stored(rest, store);
        assert forall|c: int| 0 < c < cookies.len() implies opens_session(cookies, c, store)
            == opens_session(rest, c - 1, store) by {
            assert(cookies[c] == rest[c - 1]);
        }
        if session_for(rest, store) is Some {
            let c = choose|c: int| 0 <= c < rest.len() && #[trigger] opens_session(rest, c, store)
                && session_for(rest, store) == Some(store.sessions()[rest[c].1]);
            assert(opens_session(cookies, c + 1, store));
            assert(cookies[c + 1] == rest[c]);
        } else {
            assert forall|c: int| 0 <= c < cookies.len() implies !opens_session(cookies, c, store) by {
                if c > 0 {
                    assert(!opens_session(rest, c - 1, store));
                }
            }
        }
    }
}

impl<T> SessionStore<T> {
    /// The session that a request's cookies, as (name, value) pairs, open.
    pub fn lookup(&self, cookies: &Vec<(String, String)>) -> (r: Option<&T>)
        ensures
            match r {
                Some(t) => session_for(pairs_view(cookies@), self) == Some(*t),
                None => session_for(pairs_view(cookies@), self) is None,
            },
    {
        let ghost cs = pairs_view(cookies@);
        assert(cs.skip(0) =~= cs);
        let mut i: usize = 0;
        while i < cookies.len()
            invariant
                i <= cookies@.len(),
                cs == pairs_view(cookies@),
                session_for(cs, self) == session_for(cs.skip(i as int), self),
            decreases cookies@.len() - i,
        {
            let ghost rest = cs.skip(i as int);
            assert(rest[0] == cs[i as int]);
            assert(rest.drop_first() =~= cs.skip(i + 1));
            let (name, value) = (&cookies[i].0, &cookies[i].1);
            if name.eq(&self.key) {
                match self.get(value) {
                    Some(t) => {
                        return Some(t);
                    },
                    None => {},
                }
            }
            i = i + 1;
        }
        assert(cs.skip(i as int).len() == 0);
        None
    }

    /// The session that a request's `Cookie` header values open.
    pub fn lookup_header(&self, cookie_values: &Vec<Vec<u8>>) -> (r: Option<&T>)
        ensures
            match r {
                Some(t) => session_for(cookies_of(bytes_view(cookie_values@)), self) == Some(*t),
                None => session_for(cookies_of(bytes_view(cookie_values@)), self) is None,
            },
    {
        let cookies = cookie_pairs(cookie_values);
        self.lookup(&cookies)
    }
}

} // verus!
