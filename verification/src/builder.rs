use vstd::prelude::*;

use crate::address::{IpAddr, Ipv4Addr};
use crate::errors::ConfigError;
use crate::resolver::ResolverType;

verus! {

/// The port that a server listens on where none is set.
pub const DEFAULT_PORT: u16 = 53;

/// What a server is made from: the address and the port that it listens
/// on, and how it resolves queries.
#[derive(Debug, Clone, Copy, PartialEq, Eq)]
pub struct ServerSettings {
    pub bind_address: IpAddr,
    pub port: u16,
    pub resolver: ResolverType,
}

/// Collects the settings of a server.
#[derive(Debug, Clone, Copy, PartialEq, Eq)]
pub struct ServerBuilderImpl {
    port: Option<u16>,
    bind_address: Option<IpAddr>,
    resolver: Option<ResolverType>,
}

/// The address that a server listens on where none is set: 127.0.0.1.
pub open spec fn default_bind_address() -> IpAddr {
    IpAddr::V4(Ipv4Addr { a: 127, b: 0, c: 0, d: 1 })
}

impl ServerBuilderImpl {
    /// The port that was set, if one was.
    pub closed spec fn port(self) -> Option<u16> {
        self.port
    }

    /// The address that was set, if one was.
    pub closed spec fn bind_address(self) -> Option<IpAddr> {
        self.bind_address
    }

    /// The resolver that was set, if one was.
    pub closed spec fn resolver(self) -> Option<ResolverType> {
        self.resolver
    }

    /// The settings that the builder stands for, or the reason why it
    /// stands for none: a server needs a resolver. The port is 53 and the
    /// address 127.0.0.1 where they were not set.
    pub open spec fn spec_settings(self) -> Result<ServerSettings, ConfigError> {
        match self.resolver() {
            None => Err(ConfigError::NoResolverEspecified),
            Some(resolver) => Ok(
                ServerSettings {
                    bind_address: match self.bind_address() {
                        Some(address) => address,
                        None => default_bind_address(),
                    },
                    port: match self.port() {
                        Some(port) => port,
                        None => DEFAULT_PORT,
                    },
                    resolver,
                },
            ),
        }
    }

    /// A builder with nothing set.
    pub fn new() -> (r: Self)
        ensures
            r.port() is None,
            r.bind_address() is None,
            r.resolver() is None,
    {
        ServerBuilderImpl { port: None, bind_address: None, resolver: None }
    }

    /// The builder with this port.
    pub fn set_port(&self, port: u16) -> (r: Self)
        ensures
            r.port() == Some(port),
            r.bind_address() == self.bind_address(),
            r.resolver() == self.resolver(),
    {
        ServerBuilderImpl {
            port: Some(port),
            bind_address: self.bind_address,
            resolver: self.resolver,
        }
    }

    /// The builder with this address to listen on.
    pub fn set_bind_address(&self, bind_address: IpAddr) -> (r: Self)
        ensures
            r.port() == self.port(),
            r.bind_address() == Some(bind_address),
            r.resolver() == self.resolver(),
    {
        ServerBuilderImpl {
            port: self.port,
            bind_address: Some(bind_address),
            resolver: self.resolver,
        }
    }

    /// The builder with this resolver.
    pub fn set_resolver(&self, resolver: ResolverType) -> (r: Self)
        ensures
            r.port() == self.port(),
            r.bind_address() == self.bind_address(),
            r.resolver() == Some(resolver),
    {
        ServerBuilderImpl {
            port: self.port,
            bind_address: self.bind_address,
            resolver: Some(resolver),
        }
    }

    /// The settings of the server that is to be built, or the reason why
    /// none can be built: a server needs a resolver.
    pub fn settings(&self) -> (r: Result<ServerSettings, ConfigError>)
        ensures
            r == self.spec_settings(),
    {
        let resolver = match self.resolver {
            Some(resolver) => resolver,
            None => {
                return Err(ConfigError::NoResolverEspecified);
            },
        };
        let port = match self.port {
            Some(port) => port,
            None => DEFAULT_PORT,
        };
        let bind_address = match self.bind_address {
            Some(address) => address,
            None => IpAddr::V4(Ipv4Addr::new(127, 0, 0, 1)),
        };
        Ok(ServerSettings { bind_address, port, resolver })
    }
}

} // verus!
