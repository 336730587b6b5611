//! The request layers: authentication in front of the handlers and request
//! logging, and the cluster membership record.

use vstd::prelude::*;
use crate::config::AuthConfig;
use crate::sigv4::{verify_signature_v4, verification_outcome, headers_view, AuthError, SignedRequest};

verus! {

/// Builds the authentication layer around a service.
pub struct AuthLayer {
    pub config: AuthConfig,
}

impl AuthLayer {
    pub fn new(config: AuthConfig) -> (r: AuthLayer)
        ensures
            r.config == config,
    {
        AuthLayer { config }
    }

    pub fn layer<S>(&self, inner: S) -> (r: AuthMiddleware<S>)
        ensures
            r.inner == inner,
            r.config == self.config,
    {
        let config = AuthConfig {
            access_key_id: self.config.access_key_id.clone(),
            secret_access_key: self.config.secret_access_key.clone(),
            region: self.config.region.clone(),
            signature_version: self.config.signature_version.clone(),
        };
        AuthMiddleware { inner, config }
    }
}

/// A service behind Signature V4 authentication with one configured key pair.
pub struct AuthMiddleware<S> {
    pub inner: S,
    pub config: AuthConfig,
}

impl<S> AuthMiddleware<S> {
    /// The configured credentials, as access key and secret pairs.
    pub open spec fn credentials(&self) -> Seq<(Seq<char>, Seq<char>)> {
        seq![(self.config.access_key_id@, self.config.secret_access_key@)]
    }

    /// Checks the header signature of a request against the configured key.
    pub fn authenticate(&self, req: &SignedRequest, authorization: &str) -> (r: Result<(), AuthError>)
        ensures
            r == verification_outcome(req.method@, req.path@, req.query@, headers_view(req.headers@), authorization@, self.credentials()),
    {
        let creds = vec![(self.config.access_key_id.clone(), self.config.secret_access_key.clone())];
        assert(headers_view(creds@) =~= self.credentials());
        verify_signature_v4(req, authorization, &creds)
    }
}

/// Builds the request-logging layer.
pub struct LoggingLayer {}

impl LoggingLayer {
    pub fn new() -> (r: LoggingLayer) {
        LoggingLayer {  }
    }

    pub fn layer<S>(&self, inner: S) -> (r: LoggingMiddleware<S>)
        ensures
            r.inner == inner,
    {
        LoggingMiddleware { inner }
    }
}

/// A service whose requests are logged with their duration.
pub struct LoggingMiddleware<S> {
    pub inner: S,
}

/// This node's identity and its peers.
pub struct ClusterManager {
    pub node_id: String,
    pub peers: Vec<String>,
}

impl ClusterManager {
    pub fn new(node_id: String, peers: Vec<String>) -> (r: ClusterManager)
        ensures
            r.node_id == node_id,
            r.peers == peers,
    {
        ClusterManager { node_id, peers }
    }
}

} // verus!
