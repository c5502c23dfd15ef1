//! Routing of htsget requests: mapping a method and a path to the reads
//! or variants endpoint, a service-info request or an identifier.

use vstd::prelude::*;
use vstd::string::StringExecFns;
use std::sync::Arc;
use crate::config::Config;
use crate::service_info::ServiceInfo;

verus! {

/// The two protocol endpoints.
#[derive(Clone, Copy, Debug, PartialEq, Eq, Structural)]
pub enum Endpoint {
    Reads,
    Variants,
}

/// Valid htsget request methods.
#[derive(Clone, Copy, Debug, PartialEq, Eq, Structural)]
pub enum HtsgetMethod {
    Get,
    Post,
}

/// A route type: the service-info endpoint, or an id.
#[derive(Clone, Debug, PartialEq, Eq)]
pub enum RouteType {
    ServiceInfo,
    Id(String),
}

/// A request route: a method, an endpoint and a route type.
#[derive(Clone, Debug, PartialEq, Eq)]
pub struct Route {
    pub method: HtsgetMethod,
    pub endpoint: Endpoint,
    pub route_type: RouteType,
}

impl Route {
    /// Create a route.
    pub fn new(method: HtsgetMethod, endpoint: Endpoint, route_type: RouteType) -> (r: Self)
        ensures
            r.method == method,
            r.endpoint == endpoint,
            r.route_type == route_type,
    {
        Self { method, endpoint, route_type }
    }
}

/// A json-formatting marker around a value the surrounding program
/// serializes.
#[derive(Clone, Debug, PartialEq, Eq)]
pub struct FormatJson<T>(pub T);

/// The shared state of a server: the search service and the
/// configuration.
#[derive(Clone, Debug)]
pub struct AsyncAppState<H> {
    pub htsget: Arc<H>,
    pub config: Config,
}

/// The shared state of a blocking server.
#[derive(Clone, Debug)]
pub struct AppState<H> {
    pub htsget: H,
    pub config: Config,
}

/// A router holds the search service and the service-info configuration
/// and decides where each request goes.
pub struct Router<'a, H> {
    searcher: Arc<H>,
    config_service_info: &'a ServiceInfo,
}

/// Strip a prefix of characters, if the string starts with it.
fn strip_prefix_chars<'a>(s: &'a str, prefix: &str) -> (r: Option<&'a str>)
    ensures
        match r {
            Some(rest) => prefix@.is_prefix_of(s@) && rest@ == s@.skip(prefix@.len() as int),
            None => !prefix@.is_prefix_of(s@),
        },
{
    let n = s.unicode_len();
    let m = prefix.unicode_len();
    if m > n {
        return None;
    }
    let mut i: usize = 0;
    while i < m
        invariant
            m <= n,
            n == s@.len(),
            m == prefix@.len(),
            i <= m,
            forall|j: int| 0 <= j < i ==> s@[j] == prefix@[j],
        decreases m - i,
    {
        if s.get_char(i) != prefix.get_char(i) {
            assert(!prefix@.is_prefix_of(s@));
            return None;
        }
        i += 1;
    }
    let rest = s.substring_char(m, n);
    proof {
        assert(prefix@ =~= s@.subrange(0, m as int));
        assert(rest@ =~= s@.skip(m as int));
    }
    Some(rest)
}

/// The route of a method and path, if any: `/reads/` and `/variants/`
/// prefixes name the endpoint; the rest of the path is `service-info` or
/// a non-empty id; only `GET` and `POST` are accepted.
pub open spec fn spec_route_of(method: Seq<char>, path: Seq<char>) -> Option<Route> {
    let m = if method == "GET"@ {
        Some(HtsgetMethod::Get)
    } else if method == "POST"@ {
        Some(HtsgetMethod::Post)
    } else {
        None
    };
    let e = if "/reads/"@.is_prefix_of(path) {
        Some((Endpoint::Reads, path.skip(7)))
    } else if "/variants/"@.is_prefix_of(path) {
        Some((Endpoint::Variants, path.skip(10)))
    } else {
        None
    };
    match (m, e) {
        (Some(method), Some((endpoint, rest))) => {
            if rest.len() == 0 {
                None
            } else if rest == "service-info"@ {
                Some(Route { method, endpoint, route_type: RouteType::ServiceInfo })
            } else {
                Some(Route {
                    method,
                    endpoint,
                    route_type: RouteType::Id(spec_id_string(rest)),
                })
            }
        },
        _ => None,
    }
}

/// Some `String` whose view is `s`; routes are compared by view.
pub open spec fn spec_id_string(s: Seq<char>) -> String {
    choose|out: String| out@ == s
}

impl<'a, H> Router<'a, H> {
    /// Create a router.
    pub fn new(searcher: Arc<H>, config_service_info: &'a ServiceInfo) -> (r: Self)
        ensures
            r.spec_searcher() == searcher,
            r.spec_config_service_info() == config_service_info,
    {
        Self { searcher, config_service_info }
    }

    pub closed spec fn spec_searcher(&self) -> Arc<H> {
        self.searcher
    }

    pub closed spec fn spec_config_service_info(&self) -> &'a ServiceInfo {
        self.config_service_info
    }

    /// Get the route of a request, if it is valid.
    pub fn get_route(&self, method: &str, path: &str) -> (r: Option<Route>)
        ensures
            match (r, spec_route_of(method@, path@)) {
                (Some(route), Some(expected)) => {
                    &&& route.method == expected.method
                    &&& route.endpoint == expected.endpoint
                    &&& (route.route_type is ServiceInfo <==> expected.route_type
                        is ServiceInfo)
                    &&& (route.route_type matches RouteType::Id(id) ==> id@ == path@.skip(
                        match expected.endpoint {
                            Endpoint::Reads => 7,
                            Endpoint::Variants => 10,
                        },
                    ))
                },
                (None, None) => true,
                _ => false,
            },
    {
        let is_get = str_eq(method, "GET");
        let is_post = str_eq(method, "POST");
        if !is_get && !is_post {
            return None;
        }
        let m = if is_get {
            HtsgetMethod::Get
        } else {
            HtsgetMethod::Post
        };
        let (endpoint, rest) = match strip_prefix_chars(path, "/reads/") {
            Some(rest) => (Endpoint::Reads, rest),
            None => {
                match strip_prefix_chars(path, "/variants/") {
                    Some(rest) => (Endpoint::Variants, rest),
                    None => {
                        return None;
                    },
                }
            },
        };
        proof {
            reveal_strlit("/reads/");
            reveal_strlit("/variants/");
        }
        if rest.unicode_len() == 0 {
            return None;
        }
        if str_eq(rest, "service-info") {
            Some(Route::new(m, endpoint, RouteType::ServiceInfo))
        } else {
            Some(Route::new(m, endpoint, RouteType::Id(rest.to_owned())))
        }
    }
}

/// Character-wise string equality.
fn str_eq(a: &str, b: &str) -> (r: bool)
    ensures
        r == (a@ == b@),
{
    let na = a.unicode_len();
    let nb = b.unicode_len();
    if na != nb {
        return false;
    }
    let mut i: usize = 0;
    while i < na
        invariant
            na == a@.len(),
            na == b@.len(),
            i <= na,
            forall|j: int| 0 <= j < i ==> a@[j] == b@[j],
        decreases na - i,
    {
        if a.get_char(i) != b.get_char(i) {
            return false;
        }
        i += 1;
    }
    proof {
        assert(a@ =~= b@);
    }
    true
}

} // verus!
