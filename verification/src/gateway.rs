//! Gateway decisions around the proxy framework: which host a request is
//! routed by, which backend serves it, whether the connection to a backend
//! uses TLS and under which server name, and how connection outcomes feed
//! the health tracker.

use vstd::prelude::*;

use crate::api::{Backend, BackendProtocol};
use crate::router::Router;
use crate::scoring::{table_best, table_candidate, table_fits, table_weights_fit};
use crate::text::{
    before_last, chars_of, find_first, find_last, first_index, lemma_first_index_after,
    lemma_last_index_before, substring,
};
use crate::upstream::HealthTracker;

verus! {

broadcast use vstd::string::group_string_axioms;

/// Per-request state kept across the request's lifecycle.
pub struct GatewayCtx {
    /// The address of the backend selected for the request, used to record
    /// the outcome of connecting to it.
    pub backend_address: Option<String>,
}

impl Default for GatewayCtx {
    /// A context with no backend selected yet.
    fn default() -> (c: Self)
        ensures
            c.backend_address is None,
    {
        GatewayCtx { backend_address: None }
    }
}

/// Whether a protocol needs TLS: HTTPS and H2 do, HTTP and H2C do not.
pub open spec fn needs_tls(protocol: BackendProtocol) -> bool {
    protocol == BackendProtocol::Https || protocol == BackendProtocol::H2
}

/// Determines whether a backend protocol requires TLS.
pub fn requires_tls(protocol: BackendProtocol) -> (tls: bool)
    ensures
        tls == needs_tls(protocol),
{
    match protocol {
        BackendProtocol::Https => true,
        BackendProtocol::H2 => true,
        BackendProtocol::Http => false,
        BackendProtocol::H2c => false,
    }
}

/// `s` starts with `[` and holds a `]`: a bracketed IPv6 host.
pub open spec fn bracketed(s: Seq<char>) -> bool {
    s.len() > 0 && s[0] == '[' && s.contains(']')
}

/// Server name for a backend address: the text between the brackets of
/// `[ipv6]:port`, else everything before the last `:`, else the address.
pub open spec fn sni_of(address: Seq<char>) -> Seq<char> {
    if bracketed(address) {
        address.subrange(1, first_index(address, ']')->0)
    } else {
        before_last(address, ':')
    }
}

/// Host used for routing: the Host header if present, else the
/// `:authority`, else empty; for a bracketed IPv6 host everything up to and
/// including `]`, else everything before the last `:` (the port is cut off).
pub open spec fn routing_host(host_header: Option<Seq<char>>, authority: Option<Seq<char>>) -> Seq<char> {
    let raw = match host_header {
        Some(h) => h,
        None => match authority {
            Some(a) => a,
            None => Seq::empty(),
        },
    };
    if bracketed(raw) {
        raw.take(first_index(raw, ']')->0 + 1)
    } else {
        before_last(raw, ':')
    }
}

/// The view of an optional string.
pub open spec fn opt_view(s: Option<&str>) -> Option<Seq<char>> {
    match s {
        Some(x) => Some(x@),
        None => None,
    }
}

/// Extracts the SNI (server name) from a backend address: `host:port`
/// gives `host`, `[ipv6]:port` gives `ipv6` without brackets.
pub fn extract_sni(address: &str) -> (sni: String)
    ensures
        sni@ == sni_of(address@),
{
    let v = chars_of(address);
    if v.len() > 0 && v[0] == '[' {
        match find_first(&v, ']') {
            Some(end) => {
                proof {
                    assert(v@.contains(']'));
                    assert(end >= 1);
                }
                return substring(address, 1, end);
            },
            None => {},
        }
    }
    match find_last(&v, ':') {
        Some(i) => substring(address, 0, i),
        None => address.to_owned(),
    }
}

/// Extracts the host used for routing from the Host header, falling back
/// to the `:authority` pseudo-header; the port is stripped and an empty
/// string is returned when neither is present.
pub fn extract_host_for_routing(host_header: Option<&str>, authority: Option<&str>) -> (host: String)
    ensures
        host@ == routing_host(opt_view(host_header), opt_view(authority)),
{
    let raw: &str = match host_header {
        Some(h) => h,
        None => match authority {
            Some(a) => a,
            None => "",
        },
    };
    proof {
        reveal_strlit("");
    }
    let v = chars_of(raw);
    if v.len() > 0 && v[0] == '[' {
        match find_first(&v, ']') {
            Some(end) => {
                proof {
                    assert(v@.contains(']'));
                }
                return substring(raw, 0, end + 1);
            },
            None => {},
        }
    }
    match find_last(&v, ':') {
        Some(i) => substring(raw, 0, i),
        None => raw.to_owned(),
    }
}

/// A request that no route serves: the HTTP status to answer with and why.
pub struct RouteMiss {
    pub status: u16,
    pub message: String,
}

/// The message for a request that no route serves.
pub open spec fn no_route_message(host: Seq<char>, path: Seq<char>) -> Seq<char> {
    "no route for host="@ + host + " path="@ + path
}

/// The port is cut off: a Host header `host:port` routes by `host`, as does
/// a bare `host` (for a host that holds no `:` and does not start with `[`);
/// the Host header takes precedence over `:authority`, which is used when
/// there is no Host header.
pub proof fn law_routing_host_strips_port(host: Seq<char>, port: Seq<char>, authority: Option<Seq<char>>)
    requires
        !host.contains(':'),
        !port.contains(':'),
        !(host.len() > 0 && host[0] == '['),
    ensures
        routing_host(Some(host + seq![':'] + port), authority) == host,
        routing_host(Some(host), authority) == host,
        routing_host(None, Some(host + seq![':'] + port)) == host,
{
    let s = host + seq![':'] + port;
    lemma_last_index_before(host, ':', port);
    if host.len() > 0 {
        assert(s[0] == host[0]);
    } else {
        assert(s[0] == ':');
    }
}

/// A bracketed IPv6 host keeps its brackets and loses its port when it is
/// used for routing.
pub proof fn law_routing_host_bracketed(ip: Seq<char>, rest: Seq<char>)
    requires
        !ip.contains(']'),
    ensures
        routing_host(Some(seq!['['] + ip + seq![']'] + rest), None) == seq!['['] + ip + seq![']'],
{
    let p = seq!['['] + ip;
    assert(!p.contains(']')) by {
        if p.contains(']') {
            let i = choose|i: int| 0 <= i < p.len() && p[i] == ']';
            if i > 0 {
                assert(ip[i - 1] == ']');
            }
        }
    }
    lemma_first_index_after(p, ']', rest);
    let s = seq!['['] + ip + seq![']'] + rest;
    assert(s =~= p + seq![']'] + rest);
    assert(s[p.len() as int] == ']');
    assert(s.take(p.len() as int + 1) =~= seq!['['] + ip + seq![']']);
}

/// The server name of `host:port` is `host`, and of `[ipv6]:port` it is
/// `ipv6` without the brackets.
pub proof fn law_sni(host: Seq<char>, ip: Seq<char>, port: Seq<char>)
    requires
        !host.contains(':'),
        !port.contains(':'),
        !(host.len() > 0 && host[0] == '['),
        !ip.contains(']'),
    ensures
        sni_of(host + seq![':'] + port) == host,
        sni_of(seq!['['] + ip + seq![']'] + seq![':'] + port) == ip,
{
    let s = host + seq![':'] + port;
    lemma_last_index_before(host, ':', port);
    if host.len() > 0 {
        assert(s[0] == host[0]);
    } else {
        assert(s[0] == ':');
    }
    let p = seq!['['] + ip;
    assert(!p.contains(']')) by {
        if p.contains(']') {
            let i = choose|i: int| 0 <= i < p.len() && p[i] == ']';
            if i > 0 {
                assert(ip[i - 1] == ']');
            }
        }
    }
    let rest = seq![':'] + port;
    lemma_first_index_after(p, ']', rest);
    let b = seq!['['] + ip + seq![']'] + seq![':'] + port;
    assert(b =~= p + seq![']'] + rest);
    assert(b[p.len() as int] == ']');
    assert(b.subrange(1, p.len() as int) =~= ip);
}

/// Routes requests to backends and records the outcome of connecting to them.
pub struct GatewayProxy<'a> {
    router: Router<'a>,
}

impl<'a> GatewayProxy<'a> {
    /// The router this proxy consults.
    pub closed spec fn router_view(&self) -> Router<'a> {
        self.router
    }

    /// Creates a new GatewayProxy with the given router.
    pub fn new(router: Router<'a>) -> (p: Self)
        ensures
            p.router_view() == router,
    {
        GatewayProxy { router }
    }

    /// Chooses the backend for a request: the host comes from the Host
    /// header or `:authority` (see `extract_host_for_routing`), the backend
    /// from the router. The backend's address is kept in `ctx`. When no
    /// route serves the request the answer is a 404 naming host and path,
    /// and `ctx` is left as it was.
    pub fn select_upstream(
        &self,
        host_header: Option<&str>,
        authority: Option<&str>,
        path: &str,
        ctx: &mut GatewayCtx,
    ) -> (r: Result<Backend, RouteMiss>)
        requires
            table_fits(self.router_view().store_view().http_view()),
            table_weights_fit(
                self.router_view().store_view().http_view(),
                routing_host(opt_view(host_header), opt_view(authority)),
                path@,
            ),
        ensures
            ({
                let t = self.router_view().store_view().http_view();
                let host = routing_host(opt_view(host_header), opt_view(authority));
                &&& r is Err <==> !exists|id: Seq<char>, l: int| table_candidate(t, id, l, host, path@)
                &&& r matches Ok(b) ==> {
                    &&& exists|id: Seq<char>, l: int|
                        #[trigger] table_best(t, id, l, host, path@) && t[id].rules@[l].backends@.contains(b)
                    &&& final(ctx).backend_address == Some(b.address)
                }
                &&& r matches Err(e) ==> {
                    &&& e.status == 404
                    &&& e.message@ == no_route_message(host, path@)
                    &&& *final(ctx) == *old(ctx)
                }
            }),
    {
        let host = extract_host_for_routing(host_header, authority);
        match self.router.find_backend(host.as_str(), path) {
            Some(backend) => {
                ctx.backend_address = Some(backend.address.clone());
                Ok(backend)
            },
            None => {
                let mut message = String::from_str("no route for host=");
                message.append(host.as_str());
                message.append(" path=");
                message.append(path);
                Err(RouteMiss { status: 404, message })
            },
        }
    }

    /// Records a successful connection to the backend chosen for the request.
    pub fn connected_to_upstream(ctx: &GatewayCtx, tracker: &mut HealthTracker)
        ensures
            final(tracker)@ == match ctx.backend_address {
                Some(a) => old(tracker)@.after_success(a@),
                None => old(tracker)@,
            },
    {
        if let Some(addr) = &ctx.backend_address {
            tracker.record_success(addr.as_str());
        }
    }

    /// Records a failed connection to the backend chosen for the request.
    pub fn fail_to_connect(ctx: &GatewayCtx, tracker: &mut HealthTracker)
        requires
            match ctx.backend_address {
                Some(a) => old(tracker)@.failure_count(a@) < u32::MAX,
                None => true,
            },
        ensures
            final(tracker)@ == match ctx.backend_address {
                Some(a) => old(tracker)@.after_failure(a@),
                None => old(tracker)@,
            },
    {
        if let Some(addr) = &ctx.backend_address {
            tracker.record_failure(addr.as_str());
        }
    }
}

} // verus!
