use vstd::prelude::*;

verus! {

/// Where the two executables live and how the server binds: paths to the
/// client and server binaries, the address and port the server listens on,
/// the congestion-control algorithm, and logging verbosity.
///
/// Immutable, shared read-only by the server-spawn and client-spawn
/// operations, which unverified code performs.
#[derive(Clone, Debug)]
pub struct EndpointSetup {
    /// Path to the client executable.
    pub client_binary: String,
    /// Logging verbosity prefix for the client environment.
    pub client_logging: String,
    /// Path to the server executable.
    pub server_binary: String,
    /// The address the server binds.
    pub server_ip: String,
    /// The port the server binds.
    pub server_port: String,
    /// The congestion-control algorithm the server is told to use.
    pub server_cca: String,
}

impl EndpointSetup {
    /// An endpoint configuration from its parts.
    pub fn new(
        client_binary: String,
        client_logging: String,
        server_binary: String,
        server_ip: String,
        server_port: String,
        server_cca: String,
    ) -> (r: EndpointSetup)
        ensures
            r.client_binary@ == client_binary@,
            r.client_logging@ == client_logging@,
            r.server_binary@ == server_binary@,
            r.server_ip@ == server_ip@,
            r.server_port@ == server_port@,
            r.server_cca@ == server_cca@,
    {
        EndpointSetup {
            client_binary,
            client_logging,
            server_binary,
            server_ip,
            server_port,
            server_cca,
        }
    }
}

} // verus!
