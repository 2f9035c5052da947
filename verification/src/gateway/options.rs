//! Where the gateway listens and which upstream it asks.
use crate::config::{Config, ConfigView};
use crate::text;
use vstd::prelude::*;

verus! {

/// Where the gateway listens and which upstream it asks.
#[derive(Debug, Clone)]
pub struct GatewayOptions {
    pub host: String,
    pub port: u16,
    pub upstream_base_url: String,
}

impl View for GatewayOptions {
    type V = ConfigView;

    open spec fn view(&self) -> ConfigView {
        ConfigView {
            host: self.host@,
            port: self.port,
            upstream_base_url: self.upstream_base_url@,
        }
    }
}

/// What is given on the command line, and what is configured where nothing is.
pub open spec fn resolved(
    config: ConfigView,
    host: Option<Seq<char>>,
    port: Option<u16>,
    upstream_base_url: Option<Seq<char>>,
) -> ConfigView {
    ConfigView {
        host: match host {
            Some(host) => host,
            None => config.host,
        },
        port: match port {
            Some(port) => port,
            None => config.port,
        },
        upstream_base_url: match upstream_base_url {
            Some(url) => url,
            None => config.upstream_base_url,
        },
    }
}

/// The address for a host and a port.
pub open spec fn address(host: Seq<char>, port: u16) -> Seq<char> {
    host + seq![':'] + text::decimal(port as nat)
}

/// `given`, or `other` where nothing is given.
fn text_or(given: Option<String>, other: String) -> (r: String)
    ensures
        r == match given {
            Some(given) => given,
            None => other,
        },
{
    match given {
        Some(given) => given,
        None => other,
    }
}

impl GatewayOptions {
    /// What is given on the command line, and what the configuration says where nothing is.
    pub fn resolve(
        config: Config,
        host: Option<String>,
        port: Option<u16>,
        upstream_base_url: Option<String>,
    ) -> (r: GatewayOptions)
        ensures
            r@ == resolved(
                config@,
                text::opt_text(host),
                port,
                text::opt_text(upstream_base_url),
            ),
            r.host == match host {
                Some(host) => host,
                None => config.host,
            },
            r.port == match port {
                Some(port) => port,
                None => config.port,
            },
            r.upstream_base_url == match upstream_base_url {
                Some(url) => url,
                None => config.upstream_base_url,
            },
    {
        GatewayOptions {
            host: text_or(host, config.host),
            port: match port {
                Some(port) => port,
                None => config.port,
            },
            upstream_base_url: text_or(upstream_base_url, config.upstream_base_url),
        }
    }

    /// The address that the gateway listens on.
    pub fn listen_address(&self) -> (r: String)
        ensures
            r@ == address(self.host@, self.port),
            r@ == self.host@ + seq![':'] + text::decimal(self.port as nat),
    {
        let mut r: String = self.host.clone();
        r.push(':');
        let port: String = text::decimal_text(self.port as u64);
        r.append(port.as_str());
        r
    }

    /// Whether the gateway is open to the network, where keys are seen without encryption.
    pub fn is_public(&self) -> (r: bool)
        ensures
            r == (self.host@ == "0.0.0.0"@),
    {
        text::same_text(self.host.as_str(), "0.0.0.0")
    }
}

} // verus!
