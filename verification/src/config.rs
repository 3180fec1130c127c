//! Server configuration, with the defaults filled in.

use vstd::prelude::*;
use vstd::string::StringExecFns;

verus! {

/// The port that a server listens on when none is configured.
pub const DEFAULT_PORT: u16 = 8000;

/// The character of a decimal digit.
pub open spec fn digit(value: nat) -> char {
    (48 + value) as char
}

/// A number in decimal, without sign or leading zeros.
pub open spec fn decimal(number: nat) -> Seq<char>
    decreases number,
{
    if number < 10 {
        seq![digit(number)]
    } else {
        decimal(number / 10).push(digit(number % 10))
    }
}

/// `u16::to_string` of std: the number in decimal.
#[verifier::external_body]
fn port_text(port: u16) -> (text: String)
    ensures
        text@ == decimal(port as nat),
{
    port.to_string()
}

/// The address to listen on: the one that is configured, else host and
/// port joined by a colon, with `0.0.0.0` for a missing host and
/// `default_port` for a missing port.
pub open spec fn resolved_address(
    host: Option<Seq<char>>,
    port: Option<u16>,
    address: Option<Seq<char>>,
    default_port: u16,
) -> Seq<char> {
    match address {
        Some(address) => address,
        None => {
            let host = match host {
                Some(host) => host,
                None => "0.0.0.0"@,
            };
            let port = match port {
                Some(port) => port,
                None => default_port,
            };
            host + ":"@ + decimal(port as nat)
        },
    }
}

/// The public base URL: the one that is configured, else `http://` and the address.
pub open spec fn resolved_public_url(public_url: Option<Seq<char>>, address: Seq<char>) -> Seq<
    char,
> {
    match public_url {
        Some(public_url) => public_url,
        None => "http://"@ + address,
    }
}

/// A text that may be missing, as a sequence of characters.
pub open spec fn text_of(text: Option<String>) -> Option<Seq<char>> {
    match text {
        Some(text) => Some(text@),
        None => None,
    }
}

/// Where the server listens, under which URL it is reached, and where its
/// archive lies.
#[derive(Debug, Clone)]
pub struct SrvConfig {
    host: Option<String>,
    port: Option<u16>,
    address: String,
    public_url: String,
    asset_package: String,
}

/// What a [`SrvConfig`] stands for in contracts.
pub ghost struct ConfigView {
    pub host: Option<Seq<char>>,
    pub port: Option<u16>,
    pub address: Seq<char>,
    pub public_url: Seq<char>,
    pub asset_package: Seq<char>,
}

impl View for SrvConfig {
    type V = ConfigView;

    closed spec fn view(&self) -> ConfigView {
        ConfigView {
            host: text_of(self.host),
            port: self.port,
            address: self.address@,
            public_url: self.public_url@,
            asset_package: self.asset_package@,
        }
    }
}

impl SrvConfig {
    /// Fills in what the raw settings leave open.
    pub fn resolve(
        host: Option<String>,
        port: Option<u16>,
        address: Option<String>,
        public_url: Option<String>,
        asset_package: String,
        default_port: u16,
    ) -> (cfg: SrvConfig)
        ensures
            cfg@.host == text_of(host),
            cfg@.port == port,
            cfg@.address == resolved_address(text_of(host), port, text_of(address), default_port),
            cfg@.public_url == resolved_public_url(text_of(public_url), cfg@.address),
            cfg@.asset_package == asset_package@,
    {
        let address = match address {
            Some(address) => address,
            None => {
                let number = match port {
                    Some(port) => port,
                    None => default_port,
                };
                let start = match &host {
                    Some(host) => host.clone(),
                    None => "0.0.0.0".to_owned(),
                };
                start.concat(":").concat(port_text(number).as_str())
            },
        };
        let public_url = match public_url {
            Some(public_url) => public_url,
            None => "http://".to_owned().concat(address.as_str()),
        };
        SrvConfig { host, port, address, public_url, asset_package }
    }

    pub fn address(&self) -> (address: &str)
        ensures
            address@ == self@.address,
    {
        self.address.as_str()
    }

    pub fn public_url(&self) -> (public_url: &str)
        ensures
            public_url@ == self@.public_url,
    {
        self.public_url.as_str()
    }

    /// The path of the archive file.
    pub fn asset_package(&self) -> (path: &str)
        ensures
            path@ == self@.asset_package,
    {
        self.asset_package.as_str()
    }
}

/// The settings of the identity provider that a client is told about.
#[derive(Debug, Clone, PartialEq, Eq)]
pub struct KeycloakConfig {
    pub keycloak_url: Option<String>,
    pub keycloak_client_id: Option<String>,
    pub keycloak_realm: Option<String>,
}

} // verus!
