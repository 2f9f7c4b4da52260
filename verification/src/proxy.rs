//! Proxy startup decisions: static upstream targets, and the check that a
//! proxy has somewhere to send traffic before it starts serving.

use vstd::prelude::*;

use crate::cluster::{ClusterMap, clusters_eps, insert_cluster};
use crate::config::Config;
use crate::endpoint::EndpointAddress;
use crate::locality::{LocalityV, dedup_eps};
use crate::worker::endpoints_of_addresses;

verus! {

/// The port the proxy listens on when none is configured.
pub const PORT: u16 = 7777;

/// Why the proxy refused to start.
#[derive(Clone, Copy, PartialEq, Eq, Structural, Debug)]
pub enum StartupError {
    /// Neither a static upstream target nor a management server was
    /// configured: every packet would be dropped.
    NoTargetsOrManagementServer,
}

/// Prepares a configuration for serving. Static `--to` targets, when given,
/// replace the default cluster's endpoints; then the proxy refuses to start
/// when no endpoint is configured and no management server could supply any
/// later.
pub fn prepare_config(
    config: &mut Config,
    to: &Vec<EndpointAddress>,
    has_management_server: bool,
) -> (r: Result<(), StartupError>)
    requires
        old(config).wf(),
    ensures
        final(config).wf(),
        final(config).filters == old(config).filters,
        final(config).id == old(config).id,
        final(config).version == old(config).version,
        final(config).clusters.value()@ == (if to@.len() > 0 {
            insert_cluster(
                old(config).clusters.value()@,
                (
                    Seq::<char>::empty(),
                    seq![
                        (
                            None::<LocalityV>,
                            dedup_eps(
                                to@.map_values(
                                    |a: EndpointAddress| (a, Seq::<Seq<u8>>::empty()),
                                ),
                            ),
                        ),
                    ],
                ),
            )
        } else {
            old(config).clusters.value()@
        }),
        r is Ok <==> clusters_eps(final(config).clusters.value()@).len() > 0
            || has_management_server,
        r is Err ==> r == Result::<(), StartupError>::Err(
            StartupError::NoTargetsOrManagementServer,
        ),
{
    if to.len() > 0 {
        let endpoints = endpoints_of_addresses(to);
        let mut map = config.clusters.replace(ClusterMap::new());
        map.insert_default(endpoints);
        config.clusters.store(map);
    }
    let endpoint_count = config.clusters.load().num_endpoints();
    if endpoint_count == 0 && !has_management_server {
        return Err(StartupError::NoTargetsOrManagementServer);
    }
    Ok(())
}

} // verus!
