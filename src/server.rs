//! Configuration of a server that serves an embedded single-page application next to
//! its API routes, and the routing decisions taken from it.
use vstd::prelude::*;
use crate::text::{chars_of, range_eq};

verus! {

/// Port that a server listens on unless told otherwise.
pub const DEFAULT_PORT: u16 = 8080;

/// Whether `h` ends the host name `name`.
pub open spec fn is_suffix(h: Seq<char>, name: Seq<char>) -> bool {
    h.len() <= name.len() && name.skip(name.len() - h.len()) == h
}

/// What answers a request that no API route takes.
#[derive(Debug, PartialEq, Eq)]
pub enum Fallback {
    /// Nothing: such a request is not found.
    NotFound,
    /// The embedded files, with `index.html` for any path that names none of them.
    Embedded,
    /// The development server at this address, for `GET` requests.
    Proxy { addr: String },
}

/// The settings of a single-page-application server: listening port, static
/// directories mounted under paths, an optional development server to forward to,
/// the directory that the embedded files are written to, and the host names that
/// have routers of their own.
pub struct SpaConfig {
    port: u16,
    static_paths: Vec<(String, String)>,
    forward: Option<String>,
    release_path: String,
    hosts: Vec<String>,
}

impl SpaConfig {
    pub closed spec fn view_port(&self) -> u16 {
        self.port
    }

    /// The static mounts, as (path, directory), in the order they were added.
    pub closed spec fn view_mounts(&self) -> Seq<(Seq<char>, Seq<char>)> {
        self.static_paths@.map_values(|m: (String, String)| (m.0@, m.1@))
    }

    pub closed spec fn view_forward(&self) -> Option<Seq<char>> {
        match self.forward {
            Some(a) => Some(a@),
            None => None,
        }
    }

    pub closed spec fn view_release(&self) -> Seq<char> {
        self.release_path@
    }

    /// The host names with routers of their own, in the order they were added.
    pub closed spec fn view_hosts(&self) -> Seq<Seq<char>> {
        self.hosts@.map_values(|h: String| h@)
    }

    /// Default settings, writing the embedded files to `release_path`.
    pub fn new(release_path: String) -> (r: Self)
        ensures
            r.view_port() == DEFAULT_PORT,
            r.view_mounts() == Seq::<(Seq<char>, Seq<char>)>::empty(),
            r.view_forward() is None,
            r.view_release() == release_path@,
            r.view_hosts() == Seq::<Seq<char>>::empty(),
    {
        let r = SpaConfig {
            port: DEFAULT_PORT,
            static_paths: Vec::new(),
            forward: None,
            release_path,
            hosts: Vec::new(),
        };
        assert(r.view_mounts() =~= Seq::<(Seq<char>, Seq<char>)>::empty());
        assert(r.view_hosts() =~= Seq::<Seq<char>>::empty());
        r
    }

    /// Listens on `port`.
    pub fn port(self, port: u16) -> (r: Self)
        ensures
            r.view_port() == port,
            r.view_mounts() == self.view_mounts(),
            r.view_forward() == self.view_forward(),
            r.view_release() == self.view_release(),
            r.view_hosts() == self.view_hosts(),
    {
        SpaConfig { port, ..self }
    }

    /// Serves the files of `dir` under the path `path`.
    pub fn static_path(self, path: String, dir: String) -> (r: Self)
        ensures
            r.view_port() == self.view_port(),
            r.view_mounts() == self.view_mounts().push((path@, dir@)),
            r.view_forward() == self.view_forward(),
            r.view_release() == self.view_release(),
            r.view_hosts() == self.view_hosts(),
    {
        let mut r = self;
        let ghost before = r.view_mounts();
        let ghost pd = (path@, dir@);
        r.static_paths.push((path, dir));
        assert(r.view_mounts() =~= before.push(pd));
        r
    }

    /// Forwards the requests that the embedded files would answer to the development
    /// server at `addr`.
    pub fn reverse_proxy(self, addr: String) -> (r: Self)
        ensures
            r.view_port() == self.view_port(),
            r.view_mounts() == self.view_mounts(),
            r.view_forward() == Some(addr@),
            r.view_release() == self.view_release(),
            r.view_hosts() == self.view_hosts(),
    {
        SpaConfig { forward: Some(addr), ..self }
    }

    /// Writes the embedded files to `rp`.
    pub fn release_path(self, rp: String) -> (r: Self)
        ensures
            r.view_port() == self.view_port(),
            r.view_mounts() == self.view_mounts(),
            r.view_forward() == self.view_forward(),
            r.view_release() == rp@,
            r.view_hosts() == self.view_hosts(),
    {
        SpaConfig { release_path: rp, ..self }
    }

    /// Registers the host name `host` and returns its position among the host names;
    /// a name registered before keeps its position.
    pub fn add_host(&mut self, host: String) -> (r: usize)
        ensures
            final(self).view_port() == old(self).view_port(),
            final(self).view_mounts() == old(self).view_mounts(),
            final(self).view_forward() == old(self).view_forward(),
            final(self).view_release() == old(self).view_release(),
            old(self).view_hosts().contains(host@) ==> final(self).view_hosts() == old(
                self,
            ).view_hosts() && r < old(self).view_hosts().len() && old(self).view_hosts()[r as int]
                == host@,
            !old(self).view_hosts().contains(host@) ==> final(self).view_hosts() == old(
                self,
            ).view_hosts().push(host@) && r == old(self).view_hosts().len(),
    {
        let ghost hs = self.view_hosts();
        let mut i: usize = 0;
        while i < self.hosts.len()
            invariant
                hs == self.view_hosts(),
                i <= hs.len(),
                forall|j: int| 0 <= j < i ==> hs[j] != host@,
                *self == *old(self),
            decreases hs.len() - i,
        {
            if self.hosts[i].eq(&host) {
                assert(hs[i as int] == host@);
                assert(hs.contains(host@));
                return i;
            }
            i = i + 1;
        }
        let ghost hv = host@;
        self.hosts.push(host);
        assert(self.view_hosts() =~= hs.push(hv));
        i
    }

    /// The listening port.
    pub fn listen_port(&self) -> (r: u16)
        ensures
            r == self.view_port(),
    {
        self.port
    }

    /// The static mounts, as (path, directory).
    pub fn mounts(&self) -> (r: &Vec<(String, String)>)
        ensures
            r@.map_values(|m: (String, String)| (m.0@, m.1@)) == self.view_mounts(),
    {
        &self.static_paths
    }

    /// The directory that the embedded files are written to.
    pub fn release_dir(&self) -> (r: &str)
        ensures
            r@ == self.view_release(),
    {
        self.release_path.as_str()
    }

    /// What answers requests that no API route takes: nothing when the server has no
    /// embedded files, else the development server when one is set, else the embedded
    /// files.
    pub fn fallback(&self, embedded: bool) -> (r: Fallback)
        ensures
            !embedded ==> r is NotFound,
            embedded && self.view_forward() is None ==> r is Embedded,
            embedded && self.view_forward() is Some ==> (r matches Fallback::Proxy { addr } && Some(
                addr@,
            ) == self.view_forward()),
    {
        if !embedded {
            return Fallback::NotFound;
        }
        match &self.forward {
            Some(a) => Fallback::Proxy { addr: a.clone() },
            None => Fallback::Embedded,
        }
    }

    /// Position of the first registered host name that ends `hostname`, if any.
    pub fn match_host(&self, hostname: &str) -> (r: Option<usize>)
        ensures
            match r {
                Some(i) => i < self.view_hosts().len() && is_suffix(
                    self.view_hosts()[i as int],
                    hostname@,
                ) && forall|j: int|
                    0 <= j < i ==> !is_suffix(#[trigger] self.view_hosts()[j], hostname@),
                None => forall|j: int|
                    0 <= j < self.view_hosts().len() ==> !is_suffix(
                        #[trigger] self.view_hosts()[j],
                        hostname@,
                    ),
            },
    {
        let name = chars_of(hostname);
        let ghost hs = self.view_hosts();
        let mut i: usize = 0;
        while i < self.hosts.len()
            invariant
                hs == self.view_hosts(),
                name@ == hostname@,
                i <= hs.len(),
                forall|j: int| 0 <= j < i ==> !is_suffix(#[trigger] hs[j], hostname@),
            decreases hs.len() - i,
        {
            let h = chars_of(self.hosts[i].as_str());
            if h.len() <= name.len() && range_eq(&name, name.len() - h.len(), name.len(), h.as_slice()) {
                assert(name@.subrange(name@.len() - h@.len(), name@.len() as int) =~= name@.skip(
                    name@.len() - h@.len(),
                ));
                return Some(i);
            }
            assert(h@.len() <= name@.len() ==> name@.subrange(
                name@.len() - h@.len(),
                name@.len() as int,
            ) =~= name@.skip(name@.len() - h@.len()));
            i = i + 1;
        }
        None
    }
}

/// Whether the development server is asked for a request with this method: only
/// `GET` requests are forwarded.
pub fn proxy_allows(method: &str) -> (r: bool)
    ensures
        r == (method@ == seq!['G', 'E', 'T']),
{
    let m = chars_of(method);
    let r = m.len() == 3 && range_eq(&m, 0, 3, &['G', 'E', 'T']);
    proof {
        assert(['G', 'E', 'T']@ =~= seq!['G', 'E', 'T']);
        if m@.len() == 3 {
            assert(m@.subrange(0, 3) =~= m@);
        }
    }
    r
}

} // verus!
