//! The record types the filter and rendering logic works over: sessions,
//! images, servers and zones as returned by the orchestration service, plus
//! the response of a session-creation call.  All fields that the service
//! may omit are optional.

use vstd::prelude::*;

verus! {

/// Nested image metadata returned alongside a session.
#[derive(Clone, Debug)]
pub struct SessionImage {
    pub friendly_name: Option<String>,
    pub name: Option<String>,
}

/// A workspace session record.
#[derive(Clone, Debug)]
pub struct Session {
    pub kasm_id: String,
    pub user_id: Option<String>,
    pub image_id: Option<String>,
    pub image: Option<SessionImage>,
    pub username: Option<String>,
    pub share_id: Option<String>,
    pub kasm_url: Option<String>,
    pub created_date: Option<String>,
    pub expiration_date: Option<String>,
    pub hostname: Option<String>,
    pub server_id: Option<String>,
    pub keepalive_date: Option<String>,
    pub start_date: Option<String>,
    pub operational_status: Option<String>,
    pub container_id: Option<String>,
}

impl Default for Session {
    /// An empty session record: every optional field unset.
    fn default() -> (r: Self)
        ensures
            r.kasm_id@ == Seq::<char>::empty(),
            r.user_id is None,
            r.image_id is None,
            r.image is None,
            r.username is None,
            r.share_id is None,
            r.kasm_url is None,
            r.created_date is None,
            r.expiration_date is None,
            r.hostname is None,
            r.server_id is None,
            r.keepalive_date is None,
            r.start_date is None,
            r.operational_status is None,
            r.container_id is None,
    {
        Session {
            kasm_id: String::new(),
            user_id: None,
            image_id: None,
            image: None,
            username: None,
            share_id: None,
            kasm_url: None,
            created_date: None,
            expiration_date: None,
            hostname: None,
            server_id: None,
            keepalive_date: None,
            start_date: None,
            operational_status: None,
            container_id: None,
        }
    }
}

/// A workspace image record.  The fractional core count the service also
/// reports is a floating-point value and is carried only by the
/// application-side copy of this record.
#[derive(Clone, Debug)]
pub struct Image {
    pub image_id: String,
    pub friendly_name: Option<String>,
    pub name: Option<String>,
    pub description: Option<String>,
    pub enabled: Option<bool>,
    pub memory: Option<i64>,
    pub image_src: Option<String>,
}

/// A server record.
#[derive(Clone, Debug)]
pub struct Server {
    pub server_id: String,
    pub friendly_name: Option<String>,
    pub hostname: Option<String>,
    pub enabled: Option<bool>,
    pub connection_type: Option<String>,
    pub connection_port: Option<i32>,
    pub connection_username: Option<String>,
    pub connection_info: Option<String>,
    pub max_simultaneous_sessions: Option<i32>,
    pub max_simultaneous_users: Option<i32>,
    pub zone_id: Option<String>,
    pub pool_id: Option<String>,
}

/// A deployment-zone record.
#[derive(Clone, Debug)]
pub struct Zone {
    pub zone_id: String,
    pub zone_name: Option<String>,
    pub allow_origin_domain: Option<String>,
    pub upstream_auth_address: Option<String>,
    pub load_balancing_strategy: Option<String>,
    pub search_alternate_zones: Option<bool>,
    pub prioritize_static_agents: Option<bool>,
    pub proxy_connections: Option<bool>,
    pub proxy_hostname: Option<String>,
    pub proxy_path: Option<String>,
    pub proxy_port: Option<i32>,
}

/// Response of a session-creation call.  The session token must never be
/// rendered; the application layer redacts it.
#[derive(Clone, Debug)]
pub struct CreateSessionResponse {
    pub kasm_id: String,
    pub status: Option<String>,
    pub kasm_url: Option<String>,
    pub session_token: Option<String>,
    pub share_id: Option<String>,
    pub user_id: Option<String>,
    pub username: Option<String>,
}

} // verus!
