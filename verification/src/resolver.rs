//! Outside-IP resolution as a step machine: the caller fetches one
//! candidate endpoint's body at a time and reports it; the machine
//! decides acceptance, advance, or exhaustion. Short-circuit and
//! exhaustion hold as proved laws over whole runs.
use vstd::prelude::*;
use crate::ip::{Ipv4, spec_parse_ipv4, parse_ipv4};
use crate::text::{spec_trim, trim};

verus! {

/// Resolution failed: every endpoint was consulted and none yielded an
/// address.
#[derive(Clone, Copy, Debug, PartialEq, Eq, Structural)]
pub enum ResolveError {
    Exhausted,
}

/// The resolution machine: the endpoints to try in order, how many have
/// been consulted, and the address found, if any.
pub struct Resolver {
    pub servers: Vec<String>,
    pub idx: usize,
    pub found: Option<Ipv4>,
}

/// The address a fetched body yields: none on transport failure, else
/// the trimmed body read as dotted-decimal text.
pub open spec fn body_ip(body: Option<Seq<char>>) -> Option<Ipv4> {
    match body {
        Some(t) => spec_parse_ipv4(spec_trim(t)),
        None => None,
    }
}

/// The endpoint list tried by default, in order.
pub open spec fn default_server_views() -> Seq<Seq<char>> {
    seq![
        "icanhazip.com"@,
        "wtfismyip.com"@,
        "da.gd"@,
        "seeip.org"@,
        "ifconfig.co"@,
        "ipw.cn"@,
    ]
}

pub open spec fn views_of(ss: Seq<String>) -> Seq<Seq<char>> {
    ss.map_values(|s: String| s@)
}

impl Resolver {
    pub open spec fn spec_done(self) -> bool {
        self.found is Some || self.idx >= self.servers@.len()
    }

    /// One observation: the consulted endpoint is counted, and a body
    /// that reads as an address ends the search.
    pub open spec fn spec_observe(self, body: Option<Seq<char>>) -> Resolver {
        Resolver { servers: self.servers, idx: (self.idx + 1) as usize, found: body_ip(body) }
    }

    /// A fresh machine over the default endpoints, with a preferred one,
    /// if given, consulted first.
    pub fn new(preferred: Option<String>) -> (r: Resolver)
        ensures
            r.idx == 0,
            r.found is None,
            views_of(r.servers@) == match preferred {
                Some(p) => seq![p@] + default_server_views(),
                None => default_server_views(),
            },
    {
        let mut servers: Vec<String> = Vec::new();
        servers.push(String::from_str("icanhazip.com"));
        servers.push(String::from_str("wtfismyip.com"));
        servers.push(String::from_str("da.gd"));
        servers.push(String::from_str("seeip.org"));
        servers.push(String::from_str("ifconfig.co"));
        servers.push(String::from_str("ipw.cn"));
        match preferred {
            Some(p) => {
                servers.insert(0, p);
                assert(views_of(servers@) =~= seq![servers@[0]@] + default_server_views());
            },
            None => {
                assert(views_of(servers@) =~= default_server_views());
            },
        }
        Resolver { servers, idx: 0, found: None }
    }

    /// The endpoint to consult next, or nothing once the search is over.
    pub fn current(&self) -> (r: Option<&String>)
        ensures
            match r {
                Some(srv) => !self.spec_done() && srv == &self.servers@[self.idx as int],
                None => self.spec_done(),
            },
    {
        if self.found.is_none() && self.idx < self.servers.len() {
            Some(&self.servers[self.idx])
        } else {
            None
        }
    }

    /// Reports what fetching the current endpoint produced: the whole
    /// body on success, nothing on a transport error.
    pub fn observe(&mut self, body: Option<&str>) -> (r: Option<Ipv4>)
        requires
            !old(self).spec_done(),
        ensures
            *final(self) == old(self).spec_observe(
                match body {
                    Some(b) => Some(b@),
                    None => None,
                },
            ),
            r == final(self).found,
    {
        let n = self.servers.len();
        assert(self.idx < n);
        self.idx = self.idx + 1;
        match body {
            Some(b) => {
                let t = trim(b);
                self.found = parse_ipv4(t);
            },
            None => {
                self.found = None;
            },
        }
        self.found
    }

    /// The outcome once the search is over: the address found, or the
    /// exhaustion error after every endpoint was consulted in vain.
    pub fn result(&self) -> (r: Result<Ipv4, ResolveError>)
        requires
            self.spec_done(),
        ensures
            match self.found {
                Some(ip) => r == Ok::<Ipv4, ResolveError>(ip),
                None => r == Err::<Ipv4, ResolveError>(ResolveError::Exhausted),
            },
    {
        match self.found {
            Some(ip) => Ok(ip),
            None => Err(ResolveError::Exhausted),
        }
    }
}

/// The machine after a sequence of observations, stopping early once
/// done: observations past the end of the search never reach it.
pub open spec fn spec_run(r: Resolver, outcomes: Seq<Option<Seq<char>>>) -> Resolver
    decreases outcomes.len(),
{
    if r.spec_done() || outcomes.len() == 0 {
        r
    } else {
        spec_run(r.spec_observe(outcomes[0]), outcomes.drop_first())
    }
}

proof fn lemma_short_circuit_from(r: Resolver, outcomes: Seq<Option<Seq<char>>>, i: int)
    requires
        r.found is None,
        r.idx + outcomes.len() <= r.servers@.len(),
        r.servers@.len() <= usize::MAX,
        0 <= i < outcomes.len(),
        body_ip(outcomes[i]) is Some,
        forall|k: int| 0 <= k < i ==> body_ip(outcomes[k]) is None,
    ensures
        spec_run(r, outcomes) == spec_run(r, outcomes.take(i + 1)),
        spec_run(r, outcomes).found == body_ip(outcomes[i]),
        spec_run(r, outcomes).idx == r.idx + i + 1,
    decreases i,
{
    assert(!r.spec_done());
    let r1 = r.spec_observe(outcomes[0]);
    let rest = outcomes.drop_first();
    if i == 0 {
        assert(r1.found == body_ip(outcomes[0]));
        assert(r1.spec_done());
        assert(spec_run(r, outcomes) == spec_run(r1, rest));
        assert(spec_run(r1, rest) == r1);
        assert(outcomes.take(1).len() == 1);
        assert(outcomes.take(1)[0] == outcomes[0]);
        assert(spec_run(r, outcomes.take(1)) == spec_run(r1, outcomes.take(1).drop_first()));
        assert(spec_run(r1, outcomes.take(1).drop_first()) == r1);
    } else {
        assert(body_ip(outcomes[0]) is None);
        assert(r1.found is None);
        assert(forall|k: int| 0 <= k < rest.len() ==> rest[k] == outcomes[k + 1]);
        lemma_short_circuit_from(r1, rest, i - 1);
        assert(spec_run(r, outcomes) == spec_run(r1, rest));
        assert(outcomes.take(i + 1).len() == i + 1);
        assert(outcomes.take(i + 1)[0] == outcomes[0]);
        assert(!r.spec_done());
        assert(spec_run(r, outcomes.take(i + 1)) == spec_run(
            r1,
            outcomes.take(i + 1).drop_first(),
        ));
        assert(outcomes.take(i + 1).drop_first() =~= rest.take(i));
        assert(spec_run(r1, rest) == spec_run(r1, rest.take(i)));
    }
}

/// Short-circuit: when the first acceptable body arrives from the entry
/// at position `i`, the search ends there with that address, having
/// consulted exactly the entries up to and including `i`; later entries
/// are never reached, so any observations past `i` leave the machine as
/// it stands.
pub proof fn lemma_resolver_short_circuit(r: Resolver, outcomes: Seq<Option<Seq<char>>>, i: int)
    requires
        r.found is None,
        r.idx == 0,
        outcomes.len() <= r.servers@.len(),
        r.servers@.len() <= usize::MAX,
        0 <= i < outcomes.len(),
        body_ip(outcomes[i]) is Some,
        forall|k: int| 0 <= k < i ==> body_ip(outcomes[k]) is None,
    ensures
        spec_run(r, outcomes) == spec_run(r, outcomes.take(i + 1)),
        spec_run(r, outcomes).found == body_ip(outcomes[i]),
        spec_run(r, outcomes).idx == i + 1,
        spec_run(r, outcomes).spec_done(),
{
    lemma_short_circuit_from(r, outcomes, i);
}

proof fn lemma_exhaustion_from(r: Resolver, outcomes: Seq<Option<Seq<char>>>)
    requires
        r.found is None,
        r.idx + outcomes.len() == r.servers@.len(),
        r.servers@.len() <= usize::MAX,
        forall|k: int| 0 <= k < outcomes.len() ==> body_ip(#[trigger] outcomes[k]) is None,
    ensures
        spec_run(r, outcomes).found is None,
        spec_run(r, outcomes).idx == r.servers@.len(),
        spec_run(r, outcomes).servers == r.servers,
    decreases outcomes.len(),
{
    if outcomes.len() == 0 {
    } else {
        assert(!r.spec_done());
        let r1 = r.spec_observe(outcomes[0]);
        let rest = outcomes.drop_first();
        assert(forall|k: int| 0 <= k < rest.len() ==> rest[k] == outcomes[k + 1]);
        lemma_exhaustion_from(r1, rest);
    }
}

/// Exhaustion: when no body from any entry reads as an address, the
/// search consults every entry exactly once and ends with no address,
/// so the outcome is the exhaustion error.
pub proof fn lemma_resolver_exhaustion(r: Resolver, outcomes: Seq<Option<Seq<char>>>)
    requires
        r.found is None,
        r.idx == 0,
        outcomes.len() == r.servers@.len(),
        r.servers@.len() <= usize::MAX,
        forall|k: int| 0 <= k < outcomes.len() ==> body_ip(#[trigger] outcomes[k]) is None,
    ensures
        spec_run(r, outcomes).found is None,
        spec_run(r, outcomes).idx == r.servers@.len(),
        spec_run(r, outcomes).spec_done(),
{
    lemma_exhaustion_from(r, outcomes);
}

/// The URL an endpoint is fetched over.
pub fn server_url(name: &str) -> (r: String)
    ensures
        r@ == "https://"@ + name@,
{
    let mut out = String::new();
    out.append("https://");
    out.append(name);
    out
}

} // verus!
