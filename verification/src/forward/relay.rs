//! The forwarding decisions: which platform a request goes to next, the
//! headers that carry its path, and the answers when forwarding fails.
//!
//! A header is given as `Some(text)` when the request has it and its value is
//! visible ASCII, and as `None` otherwise.
use vstd::prelude::*;

use crate::common::config::Point;
use crate::common::error::Error;
use crate::common::response::{is_failure, ResponseVo};
use crate::common::text::{
    join_commas, join_commas_text, same_text, signed_decimal, signed_decimal_text, split_commas,
    split_commas_text, lemma_split_nonempty,
};
use crate::forward::path_map::PathMap;

verus! {

/// The header that carries the comma-separated addresses a request travels.
pub const FORWARD_PATH: &'static str = "Forward-Path";

/// The header of an answer that records the hops it came back through.
pub const FORWARD_BACK: &'static str = "Forward-Back";

/// The header that names the service a request is meant for.
pub const DESTINATION_SERVICE: &'static str = "Destination-Service";

/// The text of a header, or nothing.
pub open spec fn header_text(h: Option<String>) -> Seq<char> {
    match h {
        Some(t) => t@,
        None => Seq::empty(),
    }
}

/// The header is there and not empty.
pub open spec fn header_present(h: Option<String>) -> bool {
    h matches Some(t) && t@.len() > 0
}

/// The addresses of a path.
pub open spec fn addrs(ps: Seq<Point>) -> Seq<Seq<char>> {
    ps.map_values(|p: Point| p.addr@)
}

/// The first position at or after `k` where `h` stands, or the length.
pub open spec fn position_from(sp: Seq<Seq<char>>, h: Seq<char>, k: nat) -> int
    decreases sp.len() - k,
{
    if k >= sp.len() {
        sp.len() as int
    } else if sp[k as int] == h {
        k as int
    } else {
        position_from(sp, h, k + 1)
    }
}

/// The host after `host` on the path: the piece that follows the first piece
/// equal to `host`, or, when `host` is not on the path, nothing.
pub open spec fn next_host(forward_path: Seq<char>, host: Seq<char>) -> Option<Seq<char>> {
    let sp = split_commas(forward_path);
    let i = position_from(sp, host, 0);
    if i + 1 < sp.len() {
        Some(sp[i + 1])
    } else {
        None
    }
}

/// The last piece of the path is `host`.
pub open spec fn is_end(forward_path: Seq<char>, host: Seq<char>) -> bool {
    split_commas(forward_path).last() == host
}

/// The `Forward-Path` header is there and not empty.
pub fn forward_path_is_exist(forward_path: &Option<String>) -> (r: bool)
    ensures
        r == header_present(*forward_path),
{
    match forward_path {
        Some(t) => t.unicode_len() > 0,
        None => false,
    }
}

/// The text of the `Forward-Path` header, empty when there is none.
pub fn get_forward_path(forward_path: &Option<String>) -> (r: String)
    ensures
        r@ == header_text(*forward_path),
{
    match forward_path {
        Some(t) => t.clone(),
        None => String::new(),
    }
}

/// The destination service, when the header names one.
pub fn get_destination_service(destination: &Option<String>) -> (r: Option<String>)
    ensures
        match r {
            Some(d) => header_present(*destination) && d@ == header_text(*destination),
            None => !header_present(*destination),
        },
{
    match destination {
        Some(t) => {
            if t.unicode_len() > 0 {
                Some(t.clone())
            } else {
                None
            }
        },
        None => None,
    }
}

/// Whether `current_host` is the last address of the path.
pub fn current_host_is_end(forward_path: &str, current_host: &str) -> (r: bool)
    ensures
        r == is_end(forward_path@, current_host@),
{
    let sp = split_commas_text(forward_path);
    proof {
        lemma_split_nonempty(forward_path@);
    }
    let last = sp.len() - 1;
    same_text(sp[last].as_str(), current_host)
}

/// The address that follows `current_host` on the path.
pub fn get_next_host(forward_path: &str, current_host: &str) -> (r: Option<String>)
    ensures
        match r {
            Some(n) => next_host(forward_path@, current_host@) == Some(n@),
            None => next_host(forward_path@, current_host@) is None,
        },
{
    let sp = split_commas_text(forward_path);
    let ghost spv = split_commas(forward_path@);
    let l = sp.len();
    let mut index: usize = 0;
    while index < l
        invariant
            l == sp@.len(),
            l == spv.len(),
            spv == split_commas(forward_path@),
            forall|j: int| 0 <= j < l ==> (#[trigger] sp@[j])@ == spv[j],
            index <= l,
            position_from(spv, current_host@, 0) == position_from(
                spv,
                current_host@,
                index as nat,
            ),
        ensures
            index <= l,
            position_from(spv, current_host@, 0) == index,
        decreases l - index,
    {
        if same_text(sp[index].as_str(), current_host) {
            break ;
        }
        index = index + 1;
    }
    if l - index > 1 {
        Some(sp[index + 1].clone())
    } else {
        None
    }
}

/// The URI of the request at the next host: the host, then the path and query
/// unless they are just `/`.
pub fn get_forward_next_uri(next_host: &str, path_query: &str) -> (r: String)
    ensures
        r@ == if path_query@ == "/"@ {
            "http://"@ + next_host@
        } else {
            "http://"@ + next_host@ + path_query@
        },
{
    let mut r = String::from_str("http://");
    r.append(next_host);
    if !same_text(path_query, "/") {
        r.append(path_query);
    }
    r
}

/// The addresses of a path joined by commas.
pub fn join_addrs(ps: &Vec<Point>) -> (s: String)
    ensures
        s@ == join_commas(addrs(ps@)),
{
    let mut v: Vec<String> = Vec::new();
    let mut i: usize = 0;
    while i < ps.len()
        invariant
            i <= ps@.len(),
            v@.map_values(|p: String| p@) == addrs(ps@.take(i as int)),
        decreases ps@.len() - i,
    {
        v.push(ps[i].addr.clone());
        assert(addrs(ps@.take(i + 1)) =~= addrs(ps@.take(i as int)).push(ps@[i as int].addr@));
        assert(v@.map_values(|p: String| p@) =~= addrs(ps@.take(i as int)).push(
            ps@[i as int].addr@,
        ));
        i = i + 1;
    }
    assert(ps@.take(ps@.len() as int) =~= ps@);
    join_commas_text(&v)
}

/// The `Forward-Path` the platform gives a request that names a destination
/// service and carries no path yet: the addresses of this platform's own path
/// in the routing table, when there is one and it is not empty. `None` means
/// the header stays as it is.
pub open spec fn initial_path_spec(
    map: Map<Seq<char>, Seq<Point>>,
    host: Seq<char>,
    forward_path: Option<String>,
    destination: Option<String>,
) -> Option<Seq<char>> {
    if !header_present(forward_path) && header_present(destination) && map.contains_key(host)
        && join_commas(addrs(map[host])).len() > 0 {
        Some(join_commas(addrs(map[host])))
    } else {
        None
    }
}

/// The first step of the forwarding middleware: the new `Forward-Path`, if any.
pub fn initial_forward_path(
    map: &PathMap,
    host: &str,
    forward_path: &Option<String>,
    destination: &Option<String>,
) -> (r: Option<String>)
    ensures
        match r {
            Some(p) => initial_path_spec(map@, host@, *forward_path, *destination) == Some(p@),
            None => initial_path_spec(map@, host@, *forward_path, *destination) is None,
        },
{
    let f_exist = forward_path_is_exist(forward_path);
    let dest = get_destination_service(destination);
    if !f_exist && dest.is_some() {
        match map.get(host) {
            Some(path) => {
                let fp = join_addrs(path);
                if fp.unicode_len() > 0 {
                    return Some(fp);
                }
            },
            None => {},
        }
    }
    None
}

/// The service to look up in the registry: the destination, when there is one
/// and this platform is the last on the request's path.
pub fn destination_to_lookup(
    forward_path: &Option<String>,
    destination: &Option<String>,
    host: &str,
) -> (r: Option<String>)
    ensures
        match r {
            Some(d) => header_present(*destination) && d@ == header_text(*destination) && is_end(
                header_text(*forward_path),
                host@,
            ),
            None => !(header_present(*destination) && is_end(header_text(*forward_path), host@)),
        },
{
    match get_destination_service(destination) {
        Some(d) => {
            let fp = get_forward_path(forward_path);
            if current_host_is_end(fp.as_str(), host) {
                Some(d)
            } else {
                None
            }
        },
        None => None,
    }
}

/// An instance of a service, as the registry lists it.
#[derive(Debug, Clone)]
pub struct ServiceEndpoint {
    pub ip: String,
    pub port: i32,
    pub enabled: bool,
    pub healthy: bool,
}

/// The `ip:port` address of an instance.
pub open spec fn endpoint_addr(e: ServiceEndpoint) -> Seq<char> {
    e.ip@ + seq![':'] + signed_decimal(e.port as int)
}

/// The instance can take the request: it is enabled, healthy, and not this platform.
pub open spec fn endpoint_usable(e: ServiceEndpoint, host: Seq<char>) -> bool {
    e.enabled && e.healthy && endpoint_addr(e) != host
}

/// The first usable instance at or after `k`, or the length.
pub open spec fn chosen_endpoint(es: Seq<ServiceEndpoint>, host: Seq<char>, k: nat) -> int
    decreases es.len() - k,
{
    if k >= es.len() {
        es.len() as int
    } else if endpoint_usable(es[k as int], host) {
        k as int
    } else {
        chosen_endpoint(es, host, k + 1)
    }
}

/// The `ip:port` address of an instance.
pub fn endpoint_address(e: &ServiceEndpoint) -> (s: String)
    ensures
        s@ == endpoint_addr(*e),
{
    let mut s = e.ip.clone();
    s.append(":");
    proof {
        reveal_strlit(":");
    }
    let port = signed_decimal_text(e.port);
    s.append(port.as_str());
    s
}

/// The path extended with the first usable instance of the destination
/// service, or `None` when no instance is usable.
pub fn extend_forward_path(forward_path: &str, instances: &Vec<ServiceEndpoint>, host: &str) -> (r:
    Option<String>)
    ensures
        ({
            let i = chosen_endpoint(instances@, host@, 0);
            match r {
                Some(p) => i < instances@.len() && p@ == forward_path@ + seq![','] + endpoint_addr(
                    instances@[i],
                ),
                None => i == instances@.len(),
            }
        }),
{
    let mut i: usize = 0;
    while i < instances.len()
        invariant
            i <= instances@.len(),
            chosen_endpoint(instances@, host@, 0) == chosen_endpoint(instances@, host@, i as nat),
        decreases instances@.len() - i,
    {
        let ins = &instances[i];
        if ins.enabled && ins.healthy {
            let addr = endpoint_address(ins);
            if !same_text(addr.as_str(), host) {
                let mut p = String::from_str(forward_path);
                p.append(",");
                p.append(addr.as_str());
                proof {
                    reveal_strlit(",");
                }
                return Some(p);
            }
        }
        i = i + 1;
    }
    None
}

/// The message when the registry cannot be asked for the destination service.
pub open spec fn lookup_failure_msg(dest: Seq<char>, reason: Seq<char>) -> Seq<char> {
    "目标服务地址获取失败"@ + dest + "，"@ + reason
}

/// The failed answer when the registry lookup fails with `reason`.
pub fn lookup_failure(dest: &str, reason: &str) -> (r: ResponseVo<String>)
    ensures
        r.code == 1,
        !r.status,
        r.msg@ == lookup_failure_msg(dest@, reason@),
        r.body is None,
{
    let mut msg = String::from_str("目标服务地址获取失败");
    msg.append(dest);
    msg.append("，");
    msg.append(reason);
    ResponseVo::<String>::from_error(&Error::from_text(msg.as_str()))
}

/// The host the request is forwarded to, when its path names one after this platform.
pub fn route_next_host(forward_path: &Option<String>, host: &str) -> (r: Option<String>)
    ensures
        match forward_path {
            Some(t) => match r {
                Some(n) => next_host(t@, host@) == Some(n@),
                None => next_host(t@, host@) is None,
            },
            None => r is None,
        },
{
    match forward_path {
        Some(t) => get_next_host(t.as_str(), host),
        None => None,
    }
}

/// The `Forward-Back` value of an answer that came back from `next_host`:
/// the hops already recorded, if any, then `next_host:ok`.
pub open spec fn forward_back(existing: Option<Seq<char>>, next_host: Seq<char>) -> Seq<char> {
    match existing {
        Some(e) => e + seq![','] + next_host + ":ok"@,
        None => next_host + ":ok"@,
    }
}

/// The `Forward-Back` value of an answer that came back from `next_host`.
pub fn forward_back_value(existing: &Option<String>, next_host: &str) -> (r: String)
    ensures
        r@ == forward_back(
            match existing {
                Some(e) => Some(e@),
                None => None,
            },
            next_host@,
        ),
{
    let mut r = match existing {
        Some(e) => {
            let mut r = e.clone();
            r.append(",");
            proof {
                reveal_strlit(",");
            }
            r
        },
        None => String::new(),
    };
    r.append(next_host);
    r.append(":ok");
    r
}

/// The failed answer when `next_host` cannot be reached.
pub fn forward_failure(next_host: &str) -> (r: ResponseVo<String>)
    ensures
        r.code == 1,
        !r.status,
        r.msg@ == next_host@ + "访问失败"@,
        r.body is None,
{
    let mut msg = String::from_str(next_host);
    msg.append("访问失败");
    ResponseVo::<String>::from_error(&Error::from_text(msg.as_str()))
}

/// The `Forward-Back` value of that failed answer.
pub fn forward_failure_info(next_host: &str) -> (r: String)
    ensures
        r@ == next_host@ + ":err"@,
{
    let mut r = String::from_str(next_host);
    r.append(":err");
    r
}

/// The forwarding headers of a request as they read now.
#[derive(Debug, Clone)]
pub struct ForwardHeaders {
    pub forward_path: Option<String>,
    pub destination: Option<String>,
}

/// Where the forwarding middleware stands with a request.
#[derive(Debug, Clone, Copy, PartialEq, Eq)]
pub enum MiddlewareStage {
    /// Give a path to a request for a destination service that has none.
    Seed,
    /// Ask the registry for the destination service at the end of the path.
    Lookup,
    /// Send the request on, or keep it here.
    Route,
}

/// What the middleware does next.
#[derive(Debug, Clone)]
pub enum MiddlewareAction {
    /// Set `Forward-Path` to this value, read the headers again, and take the
    /// next step at the stage given.
    SetForwardPath(String, MiddlewareStage),
    /// Ask the registry for the instances of the service (first), then call
    /// `middleware_after_lookup` with the path text (second) and the outcome.
    Lookup(String, String),
    /// Forward the request to this host.
    Forward(String),
    /// Answer the request with this failure.
    Respond(ResponseVo<String>),
    /// Hand the request to this platform's own routes.
    PassOn,
}

/// `r` is the routing decision for the path header `fp`.
pub open spec fn routes_as(r: MiddlewareAction, fp: Option<String>, host: Seq<char>) -> bool {
    match fp {
        Some(t) => match next_host(t@, host) {
            Some(n) => (r matches MiddlewareAction::Forward(x) && x@ == n),
            None => r is PassOn,
        },
        None => r is PassOn,
    }
}

/// `r` is the lookup decision for the headers, routing when there is nothing to look up.
pub open spec fn looks_up_as(r: MiddlewareAction, h: ForwardHeaders, host: Seq<char>) -> bool {
    if header_present(h.destination) && is_end(header_text(h.forward_path), host) {
        (r matches MiddlewareAction::Lookup(s, f) && s@ == header_text(h.destination) && f@
            == header_text(h.forward_path))
    } else {
        routes_as(r, h.forward_path, host)
    }
}

/// The step of the middleware at `stage`: seeding the path, then looking up
/// the destination at the end of the path, then routing.
pub fn middleware_step(map: &PathMap, host: &str, stage: MiddlewareStage, headers: &ForwardHeaders) -> (r:
    MiddlewareAction)
    ensures
        match stage {
            MiddlewareStage::Seed => match initial_path_spec(
                map@,
                host@,
                headers.forward_path,
                headers.destination,
            ) {
                Some(p) => (r matches MiddlewareAction::SetForwardPath(t, st) && t@ == p && st
                    == MiddlewareStage::Lookup),
                None => looks_up_as(r, *headers, host@),
            },
            MiddlewareStage::Lookup => looks_up_as(r, *headers, host@),
            MiddlewareStage::Route => routes_as(r, headers.forward_path, host@),
        },
{
    if let MiddlewareStage::Seed = stage {
        match initial_forward_path(map, host, &headers.forward_path, &headers.destination) {
            Some(p) => return MiddlewareAction::SetForwardPath(p, MiddlewareStage::Lookup),
            None => {},
        }
    }
    if !matches!(stage, MiddlewareStage::Route) {
        match destination_to_lookup(&headers.forward_path, &headers.destination, host) {
            Some(d) => return MiddlewareAction::Lookup(d, get_forward_path(&headers.forward_path)),
            None => {},
        }
    }
    match route_next_host(&headers.forward_path, host) {
        Some(n) => MiddlewareAction::Forward(n),
        None => MiddlewareAction::PassOn,
    }
}

/// The step after the registry has answered the lookup of `service` for a
/// request whose path reads `forward_path`: extend the path with the first
/// usable instance, or route as the headers stand; a failed lookup is answered.
pub fn middleware_after_lookup(
    host: &str,
    service: &str,
    forward_path: &str,
    headers: &ForwardHeaders,
    lookup: &Result<Vec<ServiceEndpoint>, String>,
) -> (r: MiddlewareAction)
    ensures
        match lookup {
            Err(reason) => (r matches MiddlewareAction::Respond(a) && is_failure(
                a,
                lookup_failure_msg(service@, reason@),
            )),
            Ok(es) => {
                let i = chosen_endpoint(es@, host@, 0);
                if i < es@.len() {
                    (r matches MiddlewareAction::SetForwardPath(t, st) && st
                        == MiddlewareStage::Route && t@ == forward_path@ + seq![','] + endpoint_addr(
                        es@[i],
                    ))
                } else {
                    routes_as(r, headers.forward_path, host@)
                }
            },
        },
{
    match lookup {
        Err(reason) => MiddlewareAction::Respond(lookup_failure(service, reason.as_str())),
        Ok(es) => match extend_forward_path(forward_path, es, host) {
            Some(p) => MiddlewareAction::SetForwardPath(p, MiddlewareStage::Route),
            None => middleware_step_route(host, headers),
        },
    }
}

fn middleware_step_route(host: &str, headers: &ForwardHeaders) -> (r: MiddlewareAction)
    ensures
        routes_as(r, headers.forward_path, host@),
{
    match route_next_host(&headers.forward_path, host) {
        Some(n) => MiddlewareAction::Forward(n),
        None => MiddlewareAction::PassOn,
    }
}

} // verus!
