//! The rendering interface of the record types: a display name, table
//! headers, a summary row and a detailed key/value view.  Every method's
//! text content is pinned by a specification-level counterpart; drawing
//! the actual tables is the application layer's business.

use crate::display::{relative_age, relative_age_view, short_id, short_view};
use crate::models::{Server, Session, Zone};
use crate::text::{int_dec, push_int};
use vstd::prelude::*;
use vstd::string::{StrSliceExecFns, StringExecFns};

verus! {

/// The view of an optional string, with a missing value shown empty.
pub open spec fn opt_str_or_empty(o: Option<String>) -> Seq<char> {
    match o {
        Some(s) => s@,
        None => Seq::<char>::empty(),
    }
}

/// The `true`/`false` rendering of a boolean.
pub open spec fn bool_label(b: bool) -> Seq<char> {
    if b {
        "true"@
    } else {
        "false"@
    }
}

/// The rendering of an optional boolean, with a missing value shown
/// empty.
pub open spec fn opt_bool_label(o: Option<bool>) -> Seq<char> {
    match o {
        Some(b) => bool_label(b),
        None => Seq::<char>::empty(),
    }
}

/// The decimal rendering of an optional count, with a missing value shown
/// empty.
pub open spec fn opt_int_label(o: Option<i32>) -> Seq<char> {
    match o {
        Some(v) => int_dec(v as int),
        None => Seq::<char>::empty(),
    }
}

/// The value of an optional string, with a missing value shown empty.
pub fn opt_str_value(o: &Option<String>) -> (r: String)
    ensures
        r@ == opt_str_or_empty(*o),
{
    match o {
        Some(s) => s.clone(),
        None => String::new(),
    }
}

/// The `true`/`false` rendering of an optional boolean.
pub fn opt_bool_value(o: &Option<bool>) -> (r: String)
    ensures
        r@ == opt_bool_label(*o),
{
    match o {
        Some(b) => {
            if *b {
                String::from_str("true")
            } else {
                String::from_str("false")
            }
        },
        None => String::new(),
    }
}

/// The decimal rendering of an optional count.
pub fn opt_int_value(o: &Option<i32>) -> (r: String)
    ensures
        r@ == opt_int_label(*o),
{
    match o {
        Some(v) => {
            let mut out = String::new();
            push_int(&mut out, *v as i64);
            out
        },
        None => String::new(),
    }
}

/// A record kind that can be rendered as a table: a resource name, a
/// header row, a summary row and a detailed key/value view.  `now` is the
/// current wall-clock time in epoch seconds, supplied by the caller for
/// the age columns.
pub trait Resource {
    /// The display name of the resource kind.
    spec fn spec_name() -> Seq<char>;

    /// The content of the header row.
    spec fn spec_headers() -> Seq<Seq<char>>;

    /// The content of the summary row at time `now`.
    spec fn spec_row(&self, now: int) -> Seq<Seq<char>>;

    /// The key/value pairs of the detailed view at time `now`.
    spec fn spec_detail(&self, now: int) -> Seq<(Seq<char>, Seq<char>)>;

    fn resource_name() -> (r: &'static str)
        ensures
            r@ == Self::spec_name(),
    ;

    fn table_headers() -> (r: Vec<&'static str>)
        ensures
            r@.map_values(|h: &'static str| h@) == Self::spec_headers(),
    ;

    fn table_row(&self, now: u64) -> (r: Vec<String>)
        ensures
            r@.map_values(|c: String| c@) == self.spec_row(now as int),
    ;

    fn table_detail(&self, now: u64) -> (r: Vec<(&'static str, String)>)
        ensures
            r@.map_values(|p: (&'static str, String)| (p.0@, p.1@)) == self.spec_detail(
                now as int,
            ),
    ;
}

/// The image column of a session row: the friendly name of the nested
/// image record, else its raw name, else the session's image id, else
/// empty.
pub open spec fn session_image_display(s: Session) -> Seq<char> {
    match s.image {
        Some(img) => match img.friendly_name {
            Some(f) => f@,
            None => match img.name {
                Some(n) => n@,
                None => opt_str_or_empty(s.image_id),
            },
        },
        None => opt_str_or_empty(s.image_id),
    }
}

impl Resource for Session {
    open spec fn spec_name() -> Seq<char> {
        "Session"@
    }

    open spec fn spec_headers() -> Seq<Seq<char>> {
        seq!["KASM ID"@, "STATUS"@, "IMAGE"@, "USER"@, "AGE"@]
    }

    open spec fn spec_row(&self, now: int) -> Seq<Seq<char>> {
        seq![
            short_view(self.kasm_id@),
            opt_str_or_empty(self.operational_status),
            session_image_display(*self),
            opt_str_or_empty(self.username),
            match self.created_date {
                Some(d) => relative_age_view(d@, now),
                None => Seq::<char>::empty(),
            },
        ]
    }

    open spec fn spec_detail(&self, now: int) -> Seq<(Seq<char>, Seq<char>)> {
        seq![
            ("KASM ID"@, self.kasm_id@),
            ("STATUS"@, opt_str_or_empty(self.operational_status)),
            (
                "IMAGE"@,
                match self.image {
                    Some(img) => match img.friendly_name {
                        Some(f) => f@,
                        None => opt_str_or_empty(img.name),
                    },
                    None => Seq::<char>::empty(),
                },
            ),
            ("IMAGE ID"@, opt_str_or_empty(self.image_id)),
            ("USERNAME"@, opt_str_or_empty(self.username)),
            ("USER ID"@, opt_str_or_empty(self.user_id)),
            ("HOSTNAME"@, opt_str_or_empty(self.hostname)),
            ("SERVER ID"@, opt_str_or_empty(self.server_id)),
            ("CONTAINER ID"@, opt_str_or_empty(self.container_id)),
            ("SHARE ID"@, opt_str_or_empty(self.share_id)),
            ("KASM URL"@, opt_str_or_empty(self.kasm_url)),
            ("STARTED"@, opt_str_or_empty(self.start_date)),
            ("KEEPALIVE"@, opt_str_or_empty(self.keepalive_date)),
            ("CREATED"@, opt_str_or_empty(self.created_date)),
            ("EXPIRES"@, opt_str_or_empty(self.expiration_date)),
        ]
    }

    fn resource_name() -> (r: &'static str) {
        "Session"
    }

    fn table_headers() -> (r: Vec<&'static str>) {
        let mut r: Vec<&'static str> = Vec::new();
        r.push("KASM ID");
        r.push("STATUS");
        r.push("IMAGE");
        r.push("USER");
        r.push("AGE");
        proof {
            assert(r@.map_values(|h: &'static str| h@) =~= Self::spec_headers());
        }
        r
    }

    fn table_row(&self, now: u64) -> (r: Vec<String>) {
        let mut r: Vec<String> = Vec::new();
        r.push(short_id(self.kasm_id.as_str()).to_owned());
        r.push(opt_str_value(&self.operational_status));
        let image_display: String = match &self.image {
            Some(img) => match &img.friendly_name {
                Some(f) => f.clone(),
                None => match &img.name {
                    Some(n) => n.clone(),
                    None => opt_str_value(&self.image_id),
                },
            },
            None => opt_str_value(&self.image_id),
        };
        r.push(image_display);
        r.push(opt_str_value(&self.username));
        let age: String = match &self.created_date {
            Some(d) => relative_age(d.as_str(), now),
            None => String::new(),
        };
        r.push(age);
        proof {
            assert(r@.map_values(|c: String| c@) =~= self.spec_row(now as int));
        }
        r
    }

    fn table_detail(&self, now: u64) -> (r: Vec<(&'static str, String)>) {
        let image_friendly: String = match &self.image {
            Some(img) => match &img.friendly_name {
                Some(f) => f.clone(),
                None => opt_str_value(&img.name),
            },
            None => String::new(),
        };
        let mut r: Vec<(&'static str, String)> = Vec::new();
        r.push(("KASM ID", self.kasm_id.clone()));
        r.push(("STATUS", opt_str_value(&self.operational_status)));
        r.push(("IMAGE", image_friendly));
        r.push(("IMAGE ID", opt_str_value(&self.image_id)));
        r.push(("USERNAME", opt_str_value(&self.username)));
        r.push(("USER ID", opt_str_value(&self.user_id)));
        r.push(("HOSTNAME", opt_str_value(&self.hostname)));
        r.push(("SERVER ID", opt_str_value(&self.server_id)));
        r.push(("CONTAINER ID", opt_str_value(&self.container_id)));
        r.push(("SHARE ID", opt_str_value(&self.share_id)));
        r.push(("KASM URL", opt_str_value(&self.kasm_url)));
        r.push(("STARTED", opt_str_value(&self.start_date)));
        r.push(("KEEPALIVE", opt_str_value(&self.keepalive_date)));
        r.push(("CREATED", opt_str_value(&self.created_date)));
        r.push(("EXPIRES", opt_str_value(&self.expiration_date)));
        proof {
            assert(r@.map_values(|p: (&'static str, String)| (p.0@, p.1@)) =~= self.spec_detail(
                now as int,
            ));
        }
        r
    }
}

impl Resource for Server {
    open spec fn spec_name() -> Seq<char> {
        "Server"@
    }

    open spec fn spec_headers() -> Seq<Seq<char>> {
        seq!["SERVER ID"@, "NAME"@, "HOSTNAME"@, "TYPE"@, "ENABLED"@, "SESSIONS"@]
    }

    open spec fn spec_row(&self, now: int) -> Seq<Seq<char>> {
        seq![
            short_view(self.server_id@),
            opt_str_or_empty(self.friendly_name),
            opt_str_or_empty(self.hostname),
            opt_str_or_empty(self.connection_type),
            opt_bool_label(self.enabled),
            opt_int_label(self.max_simultaneous_sessions),
        ]
    }

    open spec fn spec_detail(&self, now: int) -> Seq<(Seq<char>, Seq<char>)> {
        seq![
            ("SERVER ID"@, self.server_id@),
            ("FRIENDLY NAME"@, opt_str_or_empty(self.friendly_name)),
            ("HOSTNAME"@, opt_str_or_empty(self.hostname)),
            ("ENABLED"@, opt_bool_label(self.enabled)),
            ("CONNECTION TYPE"@, opt_str_or_empty(self.connection_type)),
            ("CONNECTION PORT"@, opt_int_label(self.connection_port)),
            ("CONNECTION USERNAME"@, opt_str_or_empty(self.connection_username)),
            ("CONNECTION INFO"@, opt_str_or_empty(self.connection_info)),
            ("MAX SIMULTANEOUS SESSIONS"@, opt_int_label(self.max_simultaneous_sessions)),
            ("MAX SIMULTANEOUS USERS"@, opt_int_label(self.max_simultaneous_users)),
            ("ZONE ID"@, opt_str_or_empty(self.zone_id)),
            ("POOL ID"@, opt_str_or_empty(self.pool_id)),
        ]
    }

    fn resource_name() -> (r: &'static str) {
        "Server"
    }

    fn table_headers() -> (r: Vec<&'static str>) {
        let mut r: Vec<&'static str> = Vec::new();
        r.push("SERVER ID");
        r.push("NAME");
        r.push("HOSTNAME");
        r.push("TYPE");
        r.push("ENABLED");
        r.push("SESSIONS");
        proof {
            assert(r@.map_values(|h: &'static str| h@) =~= Self::spec_headers());
        }
        r
    }

    fn table_row(&self, now: u64) -> (r: Vec<String>) {
        let mut r: Vec<String> = Vec::new();
        r.push(short_id(self.server_id.as_str()).to_owned());
        r.push(opt_str_value(&self.friendly_name));
        r.push(opt_str_value(&self.hostname));
        r.push(opt_str_value(&self.connection_type));
        r.push(opt_bool_value(&self.enabled));
        r.push(opt_int_value(&self.max_simultaneous_sessions));
        proof {
            assert(r@.map_values(|c: String| c@) =~= self.spec_row(now as int));
        }
        r
    }

    fn table_detail(&self, now: u64) -> (r: Vec<(&'static str, String)>) {
        let mut r: Vec<(&'static str, String)> = Vec::new();
        r.push(("SERVER ID", self.server_id.clone()));
        r.push(("FRIENDLY NAME", opt_str_value(&self.friendly_name)));
        r.push(("HOSTNAME", opt_str_value(&self.hostname)));
        r.push(("ENABLED", opt_bool_value(&self.enabled)));
        r.push(("CONNECTION TYPE", opt_str_value(&self.connection_type)));
        r.push(("CONNECTION PORT", opt_int_value(&self.connection_port)));
        r.push(("CONNECTION USERNAME", opt_str_value(&self.connection_username)));
        r.push(("CONNECTION INFO", opt_str_value(&self.connection_info)));
        r.push(("MAX SIMULTANEOUS SESSIONS", opt_int_value(&self.max_simultaneous_sessions)));
        r.push(("MAX SIMULTANEOUS USERS", opt_int_value(&self.max_simultaneous_users)));
        r.push(("ZONE ID", opt_str_value(&self.zone_id)));
        r.push(("POOL ID", opt_str_value(&self.pool_id)));
        proof {
            assert(r@.map_values(|p: (&'static str, String)| (p.0@, p.1@)) =~= self.spec_detail(
                now as int,
            ));
        }
        r
    }
}

impl Resource for Zone {
    open spec fn spec_name() -> Seq<char> {
        "Zone"@
    }

    open spec fn spec_headers() -> Seq<Seq<char>> {
        seq!["ZONE ID"@, "NAME"@, "LOAD BALANCING"@, "PROXY"@]
    }

    open spec fn spec_row(&self, now: int) -> Seq<Seq<char>> {
        seq![
            short_view(self.zone_id@),
            opt_str_or_empty(self.zone_name),
            opt_str_or_empty(self.load_balancing_strategy),
            opt_bool_label(self.proxy_connections),
        ]
    }

    open spec fn spec_detail(&self, now: int) -> Seq<(Seq<char>, Seq<char>)> {
        seq![
            ("ZONE ID"@, self.zone_id@),
            ("ZONE NAME"@, opt_str_or_empty(self.zone_name)),
            ("ALLOW ORIGIN DOMAIN"@, opt_str_or_empty(self.allow_origin_domain)),
            ("UPSTREAM AUTH ADDRESS"@, opt_str_or_empty(self.upstream_auth_address)),
            ("LOAD BALANCING STRATEGY"@, opt_str_or_empty(self.load_balancing_strategy)),
            ("SEARCH ALTERNATE ZONES"@, opt_bool_label(self.search_alternate_zones)),
            ("PRIORITIZE STATIC AGENTS"@, opt_bool_label(self.prioritize_static_agents)),
            ("PROXY CONNECTIONS"@, opt_bool_label(self.proxy_connections)),
            ("PROXY HOSTNAME"@, opt_str_or_empty(self.proxy_hostname)),
            ("PROXY PATH"@, opt_str_or_empty(self.proxy_path)),
            ("PROXY PORT"@, opt_int_label(self.proxy_port)),
        ]
    }

    fn resource_name() -> (r: &'static str) {
        "Zone"
    }

    fn table_headers() -> (r: Vec<&'static str>) {
        let mut r: Vec<&'static str> = Vec::new();
        r.push("ZONE ID");
        r.push("NAME");
        r.push("LOAD BALANCING");
        r.push("PROXY");
        proof {
            assert(r@.map_values(|h: &'static str| h@) =~= Self::spec_headers());
        }
        r
    }

    fn table_row(&self, now: u64) -> (r: Vec<String>) {
        let mut r: Vec<String> = Vec::new();
        r.push(short_id(self.zone_id.as_str()).to_owned());
        r.push(opt_str_value(&self.zone_name));
        r.push(opt_str_value(&self.load_balancing_strategy));
        r.push(opt_bool_value(&self.proxy_connections));
        proof {
            assert(r@.map_values(|c: String| c@) =~= self.spec_row(now as int));
        }
        r
    }

    fn table_detail(&self, now: u64) -> (r: Vec<(&'static str, String)>) {
        let mut r: Vec<(&'static str, String)> = Vec::new();
        r.push(("ZONE ID", self.zone_id.clone()));
        r.push(("ZONE NAME", opt_str_value(&self.zone_name)));
        r.push(("ALLOW ORIGIN DOMAIN", opt_str_value(&self.allow_origin_domain)));
        r.push(("UPSTREAM AUTH ADDRESS", opt_str_value(&self.upstream_auth_address)));
        r.push(("LOAD BALANCING STRATEGY", opt_str_value(&self.load_balancing_strategy)));
        r.push(("SEARCH ALTERNATE ZONES", opt_bool_value(&self.search_alternate_zones)));
        r.push(("PRIORITIZE STATIC AGENTS", opt_bool_value(&self.prioritize_static_agents)));
        r.push(("PROXY CONNECTIONS", opt_bool_value(&self.proxy_connections)));
        r.push(("PROXY HOSTNAME", opt_str_value(&self.proxy_hostname)));
        r.push(("PROXY PATH", opt_str_value(&self.proxy_path)));
        r.push(("PROXY PORT", opt_int_value(&self.proxy_port)));
        proof {
            assert(r@.map_values(|p: (&'static str, String)| (p.0@, p.1@)) =~= self.spec_detail(
                now as int,
            ));
        }
        r
    }
}

} // verus!
