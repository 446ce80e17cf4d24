//! Configuration of a client.
use vstd::prelude::*;
use vstd::string::*;

use url::Url;

use crate::error::owned;
use crate::model::{NodeId, PublicKey, SocketAddr};
use crate::network_view::NetworkViewConfig;
#[allow(unused_imports)]
use crate::network_view::NODE_INFO_TTL;

verus! {

/// Address to listen on where none was chosen: any port of all interfaces.
pub const DEFAULT_BIND_URL: &'static str = "udp://0.0.0.0:0";

/// What `Url::parse` makes of a text, written out again.
pub uninterp spec fn url_parsed(text: Seq<char>) -> Option<Seq<char>>;

/// Calls `Url::parse`, and gives the serialization of what was parsed. The address of all
/// interfaces with the `udp` scheme is a valid URL, whose serialization is the same text.
#[verifier::external_body]
fn parse_url(text: &str) -> (r: Result<String, url::ParseError>)
    ensures
        match r {
            Ok(url) => url_parsed(text@) == Some(url@) && (text@ == "udp://0.0.0.0:0"@ ==> url@
                == text@),
            Err(_) => url_parsed(text@) is None && text@ != "udp://0.0.0.0:0"@,
        },
{
    Url::parse(text).map(String::from)
}

/// The error of `Url::parse`.
#[verifier::external_type_specification]
#[verifier::external_body]
pub struct ExParseError(url::ParseError);

/// Whether starting a client fails if it can't connect to the relay server at once.
#[derive(Clone, Copy, Debug, PartialEq, Eq, Structural)]
pub enum FailFast {
    Yes,
    No,
}

/// Configuration of a client. Durations are in milliseconds.
pub struct ClientConfig {
    pub node_id: NodeId,
    pub node_pub_key: PublicKey,
    pub challenge_difficulty: u64,
    pub bind_url: String,
    pub srv_addr: SocketAddr,
    pub auto_connect: bool,
    pub auto_connect_fail_fast: bool,
    pub session_expiration: u64,
    pub max_transmission_unit: usize,
    pub ping_measure_interval: u64,
    pub session_request_timeout: u64,
    pub challenge_request_timeout: u64,
    pub reverse_connection_tmp_timeout: u64,
    pub reverse_connection_real_timeout: u64,
    pub incoming_session_timeout: u64,
    pub neighbourhood_ttl: u64,
    pub registry_config: NetworkViewConfig,
}

/// Collects the configuration of a client.
pub struct ClientBuilder {
    pub bind_url: Option<String>,
    pub srv_url: String,
    pub auto_connect: bool,
    pub auto_connect_fail_fast: bool,
    /// In milliseconds.
    pub session_expiration: Option<u64>,
}

/// What the configuration takes from the surroundings of the client.
pub struct Surroundings {
    /// Default identity of this node, as far as its keys could be had.
    pub identity: Result<(NodeId, PublicKey), String>,
    /// Room for payloads in a packet.
    pub max_transmission_unit: Result<usize, String>,
    /// Address that the URL of the relay server stands for.
    pub srv_addr: Result<SocketAddr, String>,
}

impl ClientBuilder {
    /// Starts with the URL of a relay server and defaults for all else.
    pub fn from_url(url: String) -> (r: ClientBuilder)
        ensures
            r == (ClientBuilder {
                bind_url: None,
                srv_url: url,
                auto_connect: false,
                auto_connect_fail_fast: false,
                session_expiration: None,
            }),
    {
        ClientBuilder {
            bind_url: None,
            srv_url: url,
            auto_connect: false,
            auto_connect_fail_fast: false,
            session_expiration: None,
        }
    }

    /// Connects to the relay server when the client starts.
    pub fn connect(self, fail_fast: FailFast) -> (r: ClientBuilder)
        ensures
            r == (ClientBuilder {
                auto_connect: true,
                auto_connect_fail_fast: fail_fast == FailFast::Yes,
                ..self
            }),
    {
        let auto_connect_fail_fast = match fail_fast {
            FailFast::Yes => true,
            FailFast::No => false,
        };
        ClientBuilder { auto_connect: true, auto_connect_fail_fast, ..self }
    }

    /// Listens on an address.
    pub fn listen(self, url: String) -> (r: ClientBuilder)
        ensures
            r == (ClientBuilder { bind_url: Some(url), ..self }),
    {
        ClientBuilder { bind_url: Some(url), ..self }
    }

    /// Closes sessions that were silent for so many milliseconds.
    pub fn expire_session_after(self, expiration: u64) -> (r: ClientBuilder)
        ensures
            r == (ClientBuilder { session_expiration: Some(expiration), ..self }),
    {
        ClientBuilder { session_expiration: Some(expiration), ..self }
    }

    /// The configuration, if all it takes from the surroundings could be had.
    pub fn build_config(self, from: Surroundings) -> (r: Result<ClientConfig, String>)
        ensures
            match (from.identity, from.max_transmission_unit, from.srv_addr) {
                (Err(e), _, _) => r == Err::<ClientConfig, String>(e),
                (Ok(_), Err(e), _) => r == Err::<ClientConfig, String>(e),
                (Ok(_), Ok(_), Err(e)) => r == Err::<ClientConfig, String>(e),
                (Ok((node_id, key)), Ok(mtu), Ok(addr)) => r matches Ok(c) && {
                    &&& c.node_id == node_id
                    &&& c.node_pub_key == key
                    &&& c.challenge_difficulty == 1
                    &&& c.bind_url@ == match self.bind_url {
                        Some(url) => url@,
                        None => "udp://0.0.0.0:0"@,
                    }
                    &&& c.srv_addr == addr
                    &&& c.auto_connect == self.auto_connect
                    &&& c.auto_connect_fail_fast == self.auto_connect_fail_fast
                    &&& c.session_expiration == match self.session_expiration {
                        Some(e) => e,
                        None => 25_000,
                    }
                    &&& c.max_transmission_unit == mtu
                    &&& c.ping_measure_interval == 300_000
                    &&& c.session_request_timeout == 3_000
                    &&& c.challenge_request_timeout == 8_000
                    &&& c.reverse_connection_tmp_timeout == 3_000
                    &&& c.reverse_connection_real_timeout == 13_000
                    &&& c.incoming_session_timeout == 16_000
                    &&& c.neighbourhood_ttl == 300_000
                    &&& c.registry_config.node_info_ttl == NODE_INFO_TTL
                },
            },
    {
        let bind_url = match self.bind_url {
            Some(url) => url,
            None => match parse_url(DEFAULT_BIND_URL) {
                Ok(url) => url,
                Err(_) => owned(DEFAULT_BIND_URL),
            },
        };
        let (node_id, node_pub_key) = match from.identity {
            Ok(identity) => identity,
            Err(e) => {
                return Err(e);
            },
        };
        let max_transmission_unit = match from.max_transmission_unit {
            Ok(size) => size,
            Err(e) => {
                return Err(e);
            },
        };
        let srv_addr = match from.srv_addr {
            Ok(addr) => addr,
            Err(e) => {
                return Err(e);
            },
        };
        let session_expiration = match self.session_expiration {
            Some(expiration) => expiration,
            None => 25_000,
        };
        Ok(
            ClientConfig {
                node_id,
                node_pub_key,
                challenge_difficulty: 1,
                bind_url,
                srv_addr,
                auto_connect: self.auto_connect,
                auto_connect_fail_fast: self.auto_connect_fail_fast,
                session_expiration,
                max_transmission_unit,
                ping_measure_interval: 300_000,
                session_request_timeout: 3_000,
                challenge_request_timeout: 8_000,
                reverse_connection_tmp_timeout: 3_000,
                reverse_connection_real_timeout: 13_000,
                incoming_session_timeout: 16_000,
                neighbourhood_ttl: 300_000,
                registry_config: NetworkViewConfig::default(),
            },
        )
    }
}

} // verus!
