//! Registration requests, URL handling and the client-side search for a
//! free port.

use vstd::prelude::*;
use vstd::string::*;

verus! {

/// The port that the `url` crate reads from URL text (the scheme's known
/// default when the text names none); `None` when the text does not parse
/// or has no port.
pub uninterp spec fn url_port(s: Seq<char>) -> Option<u16>;

/// The text of the URL `base` with its port set to `port`, as the `url`
/// crate parses, changes and writes it; `None` when `base` does not parse.
pub uninterp spec fn url_with_port(base: Seq<char>, port: u16) -> Option<Seq<char>>;

/// Relies on url::Url::parse and Url::port_or_known_default.
#[verifier::external_body]
fn port_of_url(s: &str) -> (r: Option<u16>)
    ensures
        r == url_port(s@),
{
    url::Url::parse(s).ok().and_then(|u| u.port_or_known_default())
}

/// Relies on url::Url::parse, Url::set_port (whose refusal leaves the URL
/// as it was) and the URL's serialisation.
#[verifier::external_body]
fn join_port(base: &str, port: u16) -> (r: Option<String>)
    ensures
        r is Some <==> url_with_port(base@, port) is Some,
        r matches Some(t) ==> url_with_port(base@, port) == Some(t@),
{
    match url::Url::parse(base) {
        Ok(mut u) => {
            let _ = u.set_port(Some(port));
            Some(u.to_string())
        },
        Err(_) => None,
    }
}

/// The server address that a registration without one stands for.
pub open spec fn default_server() -> Seq<char> {
    "http://127.0.0.1"@
}

/// A registration request: a display name, an optional server address and
/// the port the instance listens on.
#[derive(Clone, Debug)]
pub struct Server {
    pub name: String,
    pub server: Option<String>,
    pub port: u16,
}

impl Server {
    /// The server address of the request, or the loopback default.
    pub open spec fn base_text(&self) -> Seq<char> {
        match self.server {
            Some(s) => s@,
            None => default_server(),
        }
    }

    /// The URL that the request asks to register: its server address with
    /// its port; `None` when the address does not parse.
    pub fn candidate_url(&self) -> (r: Option<String>)
        ensures
            r is Some <==> url_with_port(self.base_text(), self.port) is Some,
            r matches Some(t) ==> url_with_port(self.base_text(), self.port) == Some(t@),
    {
        match &self.server {
            Some(s) => join_port(s.as_str(), self.port),
            None => join_port("http://127.0.0.1", self.port),
        }
    }
}

/// Whether a request may reach the handlers: always when the service is
/// exposed publicly, else only when it comes from a loopback address.
/// An unknown origin counts as not loopback.
pub fn admits_request(public: bool, loopback: Option<bool>) -> (r: bool)
    ensures
        r == (public || loopback == Some(true)),
{
    public || match loopback {
        Some(b) => b,
        None => false,
    }
}

/// Whether one of the listed (name, URL text) pairs advertises port `p`.
pub open spec fn advertises(listed: Seq<(String, String)>, p: u16) -> bool {
    exists|i: int| 0 <= i < listed.len() && url_port(#[trigger] listed[i].1@) == Some(p)
}

/// The ports that the listed (name, URL text) pairs advertise.
pub fn occupied_ports(listed: &Vec<(String, String)>) -> (r: Vec<u16>)
    ensures
        forall|p: u16| #[trigger] r@.contains(p) <==> advertises(listed@, p),
{
    let mut out: Vec<u16> = Vec::new();
    let mut i: usize = 0;
    while i < listed.len()
        invariant
            i <= listed@.len(),
            forall|p: u16|
                out@.contains(p) <==> exists|j: int|
                    0 <= j < i && url_port(#[trigger] listed@[j].1@) == Some(p),
        decreases listed@.len() - i,
    {
        let got = port_of_url(listed[i].1.as_str());
        let ghost o0 = out@;
        match got {
            Some(p) => {
                out.push(p);
            },
            None => {},
        }
        proof {
            assert forall|q: u16|
                out@.contains(q) <==> exists|j: int|
                    0 <= j < i + 1 && url_port(#[trigger] listed@[j].1@) == Some(q) by {
                if out@.contains(q) {
                    let k = choose|k: int| 0 <= k < out@.len() && out@[k] == q;
                    if k < o0.len() {
                        assert(o0[k] == q);
                        assert(o0.contains(q));
                    } else {
                        assert(url_port(listed@[i as int].1@) == Some(q));
                    }
                }
                if exists|j: int| 0 <= j < i + 1 && url_port(#[trigger] listed@[j].1@) == Some(q) {
                    let j = choose|j: int| 0 <= j < i + 1 && url_port(#[trigger] listed@[j].1@) == Some(q);
                    if j < i {
                        assert(o0.contains(q));
                        let k = choose|k: int| 0 <= k < o0.len() && o0[k] == q;
                        assert(out@[k] == q);
                    } else {
                        assert(out@[o0.len() as int] == q);
                    }
                }
            }
        }
        i = i + 1;
    }
    out
}

/// Whether `v` holds `p`.
fn has_port(v: &Vec<u16>, p: u16) -> (r: bool)
    ensures
        r == v@.contains(p),
{
    let mut i: usize = 0;
    while i < v.len()
        invariant
            i <= v@.len(),
            forall|j: int| 0 <= j < i ==> v@[j] != p,
        decreases v@.len() - i,
    {
        if v[i] == p {
            return true;
        }
        i = i + 1;
    }
    false
}

/// The least port from `from` on that `occupied` does not hold; `None` when
/// every port from `from` to the largest is held.
pub fn next_free_port(occupied: &Vec<u16>, from: u16) -> (r: Option<u16>)
    ensures
        r matches Some(p) ==> from <= p && !occupied@.contains(p) && forall|q: u16|
            from <= q < p ==> occupied@.contains(q),
        r is None ==> forall|q: u16| from <= q ==> occupied@.contains(q),
{
    let mut p: u16 = from;
    loop
        invariant
            from <= p,
            forall|q: u16| from <= q < p ==> occupied@.contains(q),
        decreases u16::MAX - p,
    {
        if !has_port(occupied, p) {
            return Some(p);
        }
        if p == u16::MAX {
            return None;
        }
        p = p + 1;
    }
}

/// The client-side search for a free port above a coordinator's port.
/// The candidate is never a port that the coordinator listed, and each
/// rejection moves strictly upward, so a port whose bind probe failed is
/// never offered again.
pub struct PortSearch {
    occupied: Vec<u16>,
    candidate: u16,
}

impl PortSearch {
    pub closed spec fn occupied_view(&self) -> Seq<u16> {
        self.occupied@
    }

    pub closed spec fn candidate_view(&self) -> u16 {
        self.candidate
    }

    pub open spec fn wf(&self) -> bool {
        !self.occupied_view().contains(self.candidate_view())
    }

    /// Starts above `base` with the ports that `listed` advertises (the
    /// coordinator's `list_ports` answer) counted as taken; `None` when no
    /// port above `base` is free of them.
    pub fn start(base: u16, listed: &Vec<(String, String)>) -> (r: Option<PortSearch>)
        ensures
            r matches Some(s) ==> s.wf() && base < s.candidate_view() && forall|p: u16|
                #[trigger] s.occupied_view().contains(p) <==> advertises(listed@, p),
            r matches Some(s) ==> forall|q: u16|
                base < q < s.candidate_view() ==> s.occupied_view().contains(q),
            r is None ==> base == u16::MAX || forall|q: u16| base < q ==> #[trigger] advertises(listed@, q),
    {
        let occupied = occupied_ports(listed);
        if base == u16::MAX {
            return None;
        }
        match next_free_port(&occupied, base + 1) {
            Some(p) => Some(PortSearch { occupied, candidate: p }),
            None => {
                assert forall|q: u16| base < q implies #[trigger] advertises(listed@, q) by {
                    assert(occupied@.contains(q));
                }
                None
            },
        }
    }

    /// The port to try binding.
    pub fn candidate(&self) -> (r: u16)
        ensures
            r == self.candidate_view(),
    {
        self.candidate
    }

    /// The bind probe on the candidate failed: moves to the least free port
    /// above it. Returns false, leaving the search as it was, when none is
    /// left.
    pub fn reject(&mut self) -> (r: bool)
        requires
            old(self).wf(),
        ensures
            final(self).wf(),
            final(self).occupied_view() == old(self).occupied_view(),
            r ==> old(self).candidate_view() < final(self).candidate_view(),
            r ==> forall|q: u16|
                old(self).candidate_view() < q < final(self).candidate_view() ==> old(self).occupied_view().contains(q),
            !r ==> final(self).candidate_view() == old(self).candidate_view(),
            !r ==> forall|q: u16| old(self).candidate_view() < q ==> old(self).occupied_view().contains(q),
    {
        if self.candidate == u16::MAX {
            return false;
        }
        match next_free_port(&self.occupied, self.candidate + 1) {
            Some(p) => {
                self.candidate = p;
                true
            },
            None => false,
        }
    }
}

} // verus!
