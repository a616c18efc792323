//! Candidate hosts and the selection of the active one.

use vstd::prelude::*;
use crate::rating::{has_poor_peering, latency_score, lemma_score_positive, score};

verus! {

/// A candidate host.
#[derive(Clone, Copy, Debug)]
pub struct Server {
    /// Host name.
    pub host: &'static str,
    /// Quality score: 255 before the first rating, 0 when unreachable.
    pub rating: u8,
    /// Latency of the last probe in milliseconds, if the host answered.
    pub latency: Option<u128>,
}

/// What a probe measured on a host that answered.
#[derive(Clone, Copy, Debug)]
pub struct Probe {
    /// Round-trip time in milliseconds.
    pub latency: u128,
    /// Whether the answer came through the Cloudflare edge network.
    pub is_cloudflare: bool,
}

/// Why a probe got no answer.
#[derive(Clone, Copy, PartialEq, Eq, Structural, Debug)]
pub enum ProbeError {
    /// No answer within the time allowed.
    Timeout,
    /// The connection could not be made.
    ConnectionFailed,
}

/// The URL of a host: HTTPS, the host name and a slash.
pub open spec fn url_of(host: Seq<char>) -> Seq<char> {
    "https://"@ + host + "/"@
}

/// Whether a host with latency `a` wins a tie of scores against one with
/// latency `b`: the lower latency wins, and any latency wins against none.
pub open spec fn faster(a: Option<u128>, b: Option<u128>) -> bool {
    match (a, b) {
        (Some(x), Some(y)) => x < y,
        (Some(_), None) => true,
        _ => false,
    }
}

/// Whether host `a` ranks strictly above host `b`: by the higher score, and
/// among equal scores by latency.
pub open spec fn outranks(a: Server, b: Server) -> bool {
    a.rating > b.rating || (a.rating == b.rating && faster(a.latency, b.latency))
}

/// Whether `i` is the index of the host to select: no host ranks above it,
/// and it ranks above every host that follows it in the list.
pub open spec fn is_selected(servers: Seq<Server>, i: int) -> bool {
    &&& 0 <= i < servers.len()
    &&& forall|j: int| 0 <= j < servers.len() ==> !outranks(#[trigger] servers[j], servers[i])
    &&& forall|j: int| i < j < servers.len() ==> outranks(servers[i], #[trigger] servers[j])
}

/// A host after a probe with the given outcome: an answer sets latency and
/// score, a failure marks the host unreachable.
pub open spec fn rated(server: Server, asn: u32, outcome: Result<Probe, ProbeError>) -> Server {
    match outcome {
        Ok(probe) => Server {
            host: server.host,
            rating: score(probe.latency as nat, probe.is_cloudflare, asn) as u8,
            latency: Some(probe.latency),
        },
        Err(_) => Server { host: server.host, rating: 0, latency: None },
    }
}

/// Whether candidate `i` comes before candidate `j` in a listing from best
/// to worst: the one that ranks above the other comes first, and of two that
/// rank alike the later candidate, which is also the one that selection
/// prefers.
pub open spec fn precedes(servers: Seq<Server>, i: int, j: int) -> bool {
    outranks(servers[i], servers[j]) || (!outranks(servers[j], servers[i]) && i > j)
}

/// Whether candidate `i` occurs in `order`.
pub open spec fn lists(order: Seq<usize>, i: int) -> bool {
    exists|a: int| 0 <= a < order.len() && order[a] == i
}

/// Whether `order` lists the indices of all candidates from best to worst.
pub open spec fn is_ranking(servers: Seq<Server>, order: Seq<usize>) -> bool {
    &&& order.len() == servers.len()
    &&& forall|a: int| 0 <= a < order.len() ==> (#[trigger] order[a]) < servers.len()
    &&& forall|i: int| 0 <= i < servers.len() ==> #[trigger] lists(order, i)
    &&& forall|a: int, b: int|
        0 <= a < b < order.len() ==> precedes(servers, #[trigger] order[a] as int, #[trigger] order[b] as int)
}

/// Two listings of the same candidates from best to worst agree at every
/// position.
proof fn lemma_rankings_agree_at(
    servers: Seq<Server>,
    first: Seq<usize>,
    second: Seq<usize>,
    a: int,
)
    requires
        is_ranking(servers, first),
        is_ranking(servers, second),
        0 <= a < servers.len(),
    ensures
        first[a] == second[a],
    decreases a,
{
    let x = first[a] as int;
    let y = second[a] as int;
    if x != y {
        assert(lists(second, x));
        let b = choose|b: int| 0 <= b < second.len() && second[b] == x;
        assert(lists(first, y));
        let c = choose|c: int| 0 <= c < first.len() && first[c] == y;
        if b < a {
            lemma_rankings_agree_at(servers, first, second, b);
            assert(precedes(servers, first[b] as int, first[a] as int));
        } else if c < a {
            lemma_rankings_agree_at(servers, first, second, c);
            assert(precedes(servers, second[c] as int, second[a] as int));
        } else {
            assert(precedes(servers, second[a] as int, second[b] as int));
            assert(precedes(servers, first[a] as int, first[c] as int));
        }
    }
}

/// There is one listing of the candidates from best to worst.
pub proof fn lemma_ranking_is_unique(servers: Seq<Server>, first: Seq<usize>, second: Seq<usize>)
    requires
        is_ranking(servers, first),
        is_ranking(servers, second),
    ensures
        first == second,
{
    assert forall|a: int| 0 <= a < first.len() implies first[a] == second[a] by {
        lemma_rankings_agree_at(servers, first, second, a);
    }
    assert(first =~= second);
}

/// A listing from best to worst starts with the host to select.
pub proof fn lemma_ranking_starts_with_selection(servers: Seq<Server>, order: Seq<usize>)
    requires
        is_ranking(servers, order),
        servers.len() > 0,
    ensures
        is_selected(servers, order[0] as int),
{
    let best = order[0] as int;
    assert forall|j: int| 0 <= j < servers.len() implies !outranks(
        #[trigger] servers[j],
        servers[best],
    ) by {
        assert(lists(order, j));
        let a = choose|a: int| 0 <= a < order.len() && order[a] == j;
        if a > 0 {
            assert(precedes(servers, order[0] as int, order[a] as int));
        }
    }
    assert forall|j: int| best < j < servers.len() implies outranks(
        servers[best],
        #[trigger] servers[j],
    ) by {
        assert(lists(order, j));
        let a = choose|a: int| 0 <= a < order.len() && order[a] == j;
        assert(a > 0);
        assert(precedes(servers, order[0] as int, order[a] as int));
    }
}

/// A host whose probe failed scores 0 and has no latency, whatever it was
/// rated before and whatever network the probe came from.
pub proof fn lemma_unreachable_scores_zero(server: Server, asn: u32, error: ProbeError)
    ensures
        rated(server, asn, Err(error)).rating == 0,
        rated(server, asn, Err(error)).latency is None,
        rated(server, asn, Err(error)).host == server.host,
{
}

/// A host that answered never scores 0, so that it outranks every host
/// that did not.
pub proof fn lemma_answer_outranks_failure(
    a: Server,
    b: Server,
    asn: u32,
    probe: Probe,
    error: ProbeError,
)
    ensures
        rated(a, asn, Ok(probe)).rating >= 10,
        outranks(rated(a, asn, Ok(probe)), rated(b, asn, Err(error))),
{
    lemma_score_positive(probe.latency as nat, probe.is_cloudflare, asn);
}

/// At most one host of a list is the one to select.
pub proof fn lemma_selection_is_unique(servers: Seq<Server>, i: int, j: int)
    requires
        is_selected(servers, i),
        is_selected(servers, j),
    ensures
        i == j,
{
    if i < j {
        assert(outranks(servers[i], servers[j]));
    } else if j < i {
        assert(outranks(servers[j], servers[i]));
    }
}

/// An unreachable host is never selected while some host answered.
pub proof fn lemma_reachable_host_wins(servers: Seq<Server>, i: int, j: int)
    requires
        is_selected(servers, i),
        0 <= j < servers.len(),
        servers[j].rating > 0,
    ensures
        servers[i].rating > 0,
{
    assert(!outranks(servers[j], servers[i]));
}

impl Server {
    /// A host that was not rated yet.
    pub fn new(host: &'static str) -> (r: Self)
        ensures
            r.host == host,
            r.rating == 255,
            r.latency is None,
    {
        Server { host, rating: 255, latency: None }
    }

    /// The URL of the host.
    pub fn url(&self) -> (r: String)
        ensures
            r@ == url_of(self.host@),
    {
        let mut url = String::from_str("https://");
        url.append(self.host);
        url.append("/");
        url
    }

    /// Takes the outcome of a probe of this host, as seen from network
    /// `asn`.
    pub fn rate(&mut self, asn: u32, outcome: Result<Probe, ProbeError>)
        ensures
            *final(self) == rated(*old(self), asn, outcome),
    {
        match outcome {
            Ok(probe) => {
                self.latency = Some(probe.latency);
                self.rating = self.calculate_rating(probe.latency, probe.is_cloudflare, asn);
            },
            Err(_) => {
                self.rating = 0;
                self.latency = None;
            },
        }
    }

    /// The base score of a latency in milliseconds.
    pub fn rate_latency(&self, latency: u128) -> (r: u8)
        ensures
            r == latency_score(latency as nat),
    {
        let rating: u128 = if latency <= 50 {
            240
        } else if latency <= 100 {
            240 - (latency - 50)
        } else if latency <= 200 {
            190 - (latency - 100 + 1) / 2
        } else if latency <= 500 {
            140 - (33 * (latency - 200) + 999) / 1000
        } else {
            100
        };
        if rating < 1 {
            1
        } else if rating > 255 {
            255
        } else {
            rating as u8
        }
    }

    /// The score of a host that answered after `latency` milliseconds.
    pub fn calculate_rating(&self, latency: u128, is_cloudflare: bool, asn: u32) -> (r: u8)
        ensures
            r == score(latency as nat, is_cloudflare, asn),
    {
        let mut rating = self.rate_latency(latency);
        if is_cloudflare && has_poor_peering(asn) {
            rating = rating / 10;
        }
        rating
    }

    /// Whether this host ranks strictly above `other`.
    pub fn outranks(&self, other: &Server) -> (r: bool)
        ensures
            r == outranks(*self, *other),
    {
        if self.rating != other.rating {
            self.rating > other.rating
        } else {
            match (self.latency, other.latency) {
                (Some(mine), Some(theirs)) => mine < theirs,
                (Some(_), None) => true,
                _ => false,
            }
        }
    }
}

/// The candidate hosts and the one that is active.
pub struct Hosts {
    /// The candidates.
    pub servers: Vec<Server>,
    /// Index of the active host among the candidates, if one was selected.
    pub active_index: Option<usize>,
    /// The active host as it was when it was selected.
    pub active: Option<Server>,
}

impl Hosts {
    /// No host is active, or the active host is a copy of the candidate at
    /// the active index.
    pub open spec fn wf(&self) -> bool {
        match self.active_index {
            Some(i) => i < self.servers.len() && self.active == Some(self.servers[i as int]),
            None => self.active is None,
        }
    }

    /// The candidate pool that ships with the library, none of them rated or
    /// active.
    pub fn new() -> (r: Self)
        ensures
            r.wf(),
            r.active is None,
            r.servers.len() == 2,
            r.servers[0] == (Server { host: "cdn.alterware.ovh", rating: 255, latency: None }),
            r.servers[1] == (Server { host: "us-cdn.alterware.ovh", rating: 255, latency: None }),
    {
        let mut servers: Vec<Server> = Vec::new();
        servers.push(Server::new("cdn.alterware.ovh"));
        servers.push(Server::new("us-cdn.alterware.ovh"));
        Hosts { servers, active_index: None, active: None }
    }

    /// Whether no candidate answered its last probe.
    pub fn all_unreachable(&self) -> (r: bool)
        ensures
            r == forall|i: int| 0 <= i < self.servers.len() ==> (#[trigger] self.servers[i]).rating == 0,
    {
        let mut i: usize = 0;
        while i < self.servers.len()
            invariant
                i <= self.servers.len(),
                forall|j: int| 0 <= j < i ==> (#[trigger] self.servers[j]).rating == 0,
            decreases self.servers.len() - i,
        {
            if self.servers[i].rating != 0 {
                return false;
            }
            i += 1;
        }
        true
    }

    /// The URL of the active host, if one is active.
    pub fn active_url(&self) -> (r: Option<String>)
        ensures
            match r {
                Some(url) => self.active is Some && url@ == url_of(self.active->0.host@),
                None => self.active is None,
            },
    {
        match &self.active {
            Some(server) => Some(server.url()),
            None => None,
        }
    }

    /// Makes the best candidate the active host. Returns false, and leaves
    /// everything as it is, only where there is no candidate.
    pub fn next(&mut self) -> (r: bool)
        ensures
            r == (old(self).servers.len() > 0),
            final(self).servers == old(self).servers,
            !r ==> *final(self) == *old(self),
            r ==> final(self).wf() && final(self).active_index is Some && is_selected(
                final(self).servers@,
                final(self).active_index->0 as int,
            ),
    {
        if self.servers.len() == 0 {
            return false;
        }
        let mut best: usize = 0;
        let mut i: usize = 1;
        while i < self.servers.len()
            invariant
                0 <= best < i <= self.servers.len(),
                self.servers == old(self).servers,
                forall|j: int| 0 <= j < i ==> !outranks(#[trigger] self.servers[j], self.servers[best as int]),
                forall|j: int| best < j < i ==> outranks(self.servers[best as int], #[trigger] self.servers[j]),
            decreases self.servers.len() - i,
        {
            if !self.servers[best].outranks(&self.servers[i]) {
                best = i;
            }
            i += 1;
        }
        self.active = Some(self.servers[best]);
        self.active_index = Some(best);
        true
    }

    /// Takes the outcomes of one rating pass, `outcomes[i]` being that of
    /// the probe of candidate `i`, and selects the best host anew.
    pub fn rate(&mut self, asn: u32, outcomes: &Vec<Result<Probe, ProbeError>>)
        requires
            outcomes.len() == old(self).servers.len(),
        ensures
            final(self).servers.len() == old(self).servers.len(),
            forall|i: int|
                0 <= i < outcomes.len() ==> #[trigger] final(self).servers[i] == rated(
                    old(self).servers[i],
                    asn,
                    outcomes[i],
                ),
            final(self).wf(),
            outcomes.len() == 0 ==> final(self).active_index is None,
            outcomes.len() > 0 ==> final(self).active_index is Some && is_selected(
                final(self).servers@,
                final(self).active_index->0 as int,
            ),
    {
        let mut i: usize = 0;
        while i < self.servers.len()
            invariant
                i <= self.servers.len(),
                self.servers.len() == old(self).servers.len(),
                outcomes.len() == self.servers.len(),
                forall|j: int|
                    0 <= j < i ==> #[trigger] self.servers[j] == rated(
                        old(self).servers[j],
                        asn,
                        outcomes[j],
                    ),
                forall|j: int| i <= j < self.servers.len() ==> self.servers[j] == old(self).servers[j],
            decreases self.servers.len() - i,
        {
            let mut server = self.servers[i];
            server.rate(asn, outcomes[i]);
            self.servers.set(i, server);
            i += 1;
        }
        self.active_index = None;
        self.active = None;
        self.next();
    }

    /// Whether candidate `i` comes before candidate `j` in a listing from
    /// best to worst.
    fn precedes(&self, i: usize, j: usize) -> (r: bool)
        requires
            i < self.servers.len(),
            j < self.servers.len(),
        ensures
            r == precedes(self.servers@, i as int, j as int),
    {
        self.servers[i].outranks(&self.servers[j]) || (!self.servers[j].outranks(&self.servers[i])
            && i > j)
    }

    /// The indices of all candidates from best to worst, for a report of
    /// the last rating pass.
    pub fn ranking(&self) -> (order: Vec<usize>)
        ensures
            is_ranking(self.servers@, order@),
    {
        let ghost servers = self.servers@;
        let mut order: Vec<usize> = Vec::new();
        let mut k: usize = 0;
        while k < self.servers.len()
            invariant
                k <= self.servers.len(),
                servers == self.servers@,
                order.len() == k,
                forall|a: int| 0 <= a < order.len() ==> (#[trigger] order[a]) < k,
                forall|i: int| 0 <= i < k ==> #[trigger] lists(order@, i),
                forall|a: int, b: int|
                    0 <= a < b < order.len() ==> precedes(
                        servers,
                        #[trigger] order[a] as int,
                        #[trigger] order[b] as int,
                    ),
            decreases self.servers.len() - k,
        {
            let mut p: usize = 0;
            while p < order.len() && !self.precedes(k, order[p])
                invariant
                    p <= order.len(),
                    k < self.servers.len(),
                    servers == self.servers@,
                    forall|a: int| 0 <= a < order.len() ==> (#[trigger] order[a]) < k,
                    forall|a: int| 0 <= a < p ==> precedes(servers, #[trigger] order[a] as int, k as int),
                decreases order.len() - p,
            {
                p += 1;
            }
            let ghost before = order@;
            order.insert(p, k);
            proof {
                let after = order@;
                assert(after == before.insert(p as int, k));
                assert forall|i: int| 0 <= i < k + 1 implies #[trigger] lists(after, i) by {
                    if i == k {
                        assert(after[p as int] == i);
                    } else {
                        assert(lists(before, i));
                        let a = choose|a: int| 0 <= a < before.len() && before[a] == i;
                        if a < p {
                            assert(after[a] == i);
                        } else {
                            assert(after[a + 1] == i);
                        }
                    }
                }
                assert forall|a: int, b: int| 0 <= a < b < after.len() implies precedes(
                    servers,
                    #[trigger] after[a] as int,
                    #[trigger] after[b] as int,
                ) by {
                    if b < p {
                        assert(after[a] == before[a] && after[b] == before[b]);
                    } else if b == p {
                        assert(after[a] == before[a]);
                    } else if a < p {
                        assert(after[a] == before[a] && after[b] == before[b - 1]);
                    } else if a == p {
                        assert(after[b] == before[b - 1]);
                        assert(precedes(servers, k as int, before[p as int] as int));
                        if b - 1 > p {
                            assert(precedes(servers, before[p as int] as int, before[b - 1] as int));
                        }
                    } else {
                        assert(after[a] == before[a - 1] && after[b] == before[b - 1]);
                    }
                }
            }
            k += 1;
        }
        order
    }

    /// The URL to fetch from: that of the active host.
    pub fn get_master_url(&self) -> (r: Option<String>)
        ensures
            match r {
                Some(url) => self.active is Some && url@ == url_of(self.active->0.host@),
                None => self.active is None,
            },
    {
        self.active_url()
    }
}

} // verus!
