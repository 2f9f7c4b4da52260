//! The downstream worker's per-packet logic and the upstream reader's
//! per-reply logic, as pure decisions over a configuration snapshot.

use vstd::prelude::*;

use crate::cluster::{ClusterMap, clusters_eps};
use crate::endpoint::{Endpoint, EndpointAddress, EpV, eps_view};
use crate::filter::{FilterChain, chain_read_ctx, chain_write, lemma_chain_read_ctx};
use crate::session::SessionKey;

verus! {

/// What a worker decides to do with one downstream datagram.
#[derive(Debug)]
pub enum ProcessOutcome {
    /// Send the transformed payload through a session for every target key,
    /// in order: one per endpoint the read path produced.
    Forward { targets: Vec<SessionKey>, contents: Vec<u8> },
    /// The configuration holds no endpoint: the datagram is dropped, not
    /// buffered.
    DroppedNoEndpoints,
    /// A filter of the read path rejected the datagram.
    DroppedByFilter,
}

/// The session keys a datagram from `source` is dispatched under: one per
/// endpoint, in cluster order.
pub open spec fn fanout_keys(source: EndpointAddress, eps: Seq<EpV>) -> Seq<SessionKey> {
    eps.map_values(|e: EpV| SessionKey { source, dest: e.0 })
}

/// One downstream datagram, processed against a configuration snapshot:
/// build the endpoint list from the clusters, run the read-path filter
/// chain, and fan the result out to exactly the endpoints the read path
/// produced — none dropped, none added, none duplicated beyond the list.
pub fn process_packet(
    clusters: &ClusterMap,
    chain: &FilterChain,
    source: EndpointAddress,
    contents: &Vec<u8>,
) -> (r: ProcessOutcome)
    ensures
        clusters_eps(clusters@).len() == 0 <==> r is DroppedNoEndpoints,
        clusters_eps(clusters@).len() > 0 ==> (r is DroppedByFilter <==> chain_read_ctx(
            chain@,
            clusters_eps(clusters@),
            contents@,
        ) is None),
        r matches ProcessOutcome::Forward { targets, contents: out } ==> (chain_read_ctx(
            chain@,
            clusters_eps(clusters@),
            contents@,
        ) matches Some(ctx) && targets@ == fanout_keys(source, ctx.0) && out@ == ctx.1),
{
    proof {
        lemma_chain_read_ctx(chain@, clusters_eps(clusters@), contents@);
    }
    let endpoints = clusters.endpoints();
    if endpoints.len() == 0 {
        return ProcessOutcome::DroppedNoEndpoints;
    }
    match chain.read(contents) {
        Some(out) => {
            let ghost eps = eps_view(endpoints@);
            let mut targets: Vec<SessionKey> = Vec::new();
            let n = endpoints.len();
            let mut i: usize = 0;
            while i < n
                invariant
                    n == endpoints.len(),
                    0 <= i <= n,
                    eps == eps_view(endpoints@),
                    targets@ == fanout_keys(source, eps.take(i as int)),
                decreases n - i,
            {
                let key = SessionKey { source, dest: endpoints[i].address };
                let ghost prev = targets@;
                targets.push(key);
                proof {
                    assert(eps[i as int].0 == endpoints@[i as int].address);
                    assert(targets@ =~= prev.push(key));
                    assert(targets@ =~= fanout_keys(source, eps.take(i + 1 as int)));
                }
                i += 1;
            }
            proof {
                assert(eps.take(n as int) =~= eps);
            }
            ProcessOutcome::Forward { targets, contents: out }
        },
        None => ProcessOutcome::DroppedByFilter,
    }
}

/// One reply read from an upstream socket, processed against the filter
/// chain loaded at packet time: the write path runs in reverse filter order;
/// `None` means the reply is discarded.
pub fn process_reply(chain: &FilterChain, contents: &Vec<u8>) -> (r: Option<Vec<u8>>)
    ensures
        match r {
            Some(c) => chain_write(chain@, contents@) == Some(c@),
            None => chain_write(chain@, contents@) is None,
        },
{
    chain.write(contents)
}

/// A list of endpoints for the given addresses, each without metadata, in
/// order.
pub fn endpoints_of_addresses(addrs: &Vec<EndpointAddress>) -> (r: Vec<Endpoint>)
    ensures
        eps_view(r@) == addrs@.map_values(|a: EndpointAddress| (a, Seq::<Seq<u8>>::empty())),
{
    let mut out: Vec<Endpoint> = Vec::new();
    let n = addrs.len();
    let mut i: usize = 0;
    while i < n
        invariant
            n == addrs.len(),
            0 <= i <= n,
            eps_view(out@) == addrs@.take(i as int).map_values(
                |a: EndpointAddress| (a, Seq::<Seq<u8>>::empty()),
            ),
        decreases n - i,
    {
        let e = Endpoint::new(addrs[i]);
        let ghost prev = out@;
        let ghost ev = e@;
        out.push(e);
        proof {
            assert(eps_view(out@) =~= eps_view(prev).push(ev));
            assert(eps_view(out@) =~= addrs@.take(i + 1 as int).map_values(
                |a: EndpointAddress| (a, Seq::<Seq<u8>>::empty()),
            ));
        }
        i += 1;
    }
    proof {
        assert(addrs@.take(n as int) =~= addrs@);
    }
    out
}

} // verus!
