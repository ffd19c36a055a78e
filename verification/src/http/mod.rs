//! The service's face: its routes, and what is decided at them.

use vstd::prelude::*;

pub mod ask;
pub mod auth;
pub mod health;
pub mod index;

verus! {

/// A method of a request.
#[derive(Debug, Clone, Copy, PartialEq, Eq, Structural)]
pub enum Method {
    Get,
    Post,
    Put,
    Delete,
}

/// What answers at a route.
#[derive(Debug, Clone, Copy, PartialEq, Eq, Structural)]
pub enum Handler {
    AskStream,
    AskSync,
    GetAsk,
    PutChunk,
    DeleteChunk,
    Healthz,
    Readyz,
}

/// A route of the service.
#[derive(Debug, Clone, Copy)]
pub struct Route {
    pub method: Method,
    pub path: &'static str,
    pub handler: Handler,
    /// Whether the service token is required.
    pub protected: bool,
}

impl Handler {
    /// The method a handler answers to.
    pub open spec fn method(self) -> Method {
        match self {
            Handler::AskStream | Handler::AskSync => Method::Post,
            Handler::GetAsk | Handler::Healthz | Handler::Readyz => Method::Get,
            Handler::PutChunk => Method::Put,
            Handler::DeleteChunk => Method::Delete,
        }
    }

    /// The path a handler answers at.
    pub open spec fn path(self) -> Seq<char> {
        match self {
            Handler::AskStream => "/v1/ask"@,
            Handler::AskSync => "/v1/ask/sync"@,
            Handler::GetAsk => "/v1/asks/{ask_id}"@,
            Handler::PutChunk | Handler::DeleteChunk => "/v1/index/chunks/{id}"@,
            Handler::Healthz => "/healthz"@,
            Handler::Readyz => "/readyz"@,
        }
    }

    /// Whether a handler only tells how the service is.
    pub open spec fn probe(self) -> bool {
        self is Healthz || self is Readyz
    }

    /// Whether a handler changes the index.
    pub open spec fn writes(self) -> bool {
        self is PutChunk || self is DeleteChunk
    }
}

/// The handlers that are served.
pub open spec fn served(index_writes: bool) -> Set<Handler> {
    Set::new(|h: Handler| index_writes || !h.writes())
}

/// Whether a route is that of its handler, behind the token unless it is a probe.
pub open spec fn proper(r: Route) -> bool {
    r.method == r.handler.method() && r.path@ == r.handler.path() && r.protected
        == !r.handler.probe()
}

fn route_of(handler: Handler) -> (r: Route)
    ensures
        proper(r),
        r.handler == handler,
{
    let method: Method = match handler {
        Handler::AskStream | Handler::AskSync => Method::Post,
        Handler::GetAsk | Handler::Healthz | Handler::Readyz => Method::Get,
        Handler::PutChunk => Method::Put,
        Handler::DeleteChunk => Method::Delete,
    };
    let path: &'static str = match handler {
        Handler::AskStream => "/v1/ask",
        Handler::AskSync => "/v1/ask/sync",
        Handler::GetAsk => "/v1/asks/{ask_id}",
        Handler::PutChunk | Handler::DeleteChunk => "/v1/index/chunks/{id}",
        Handler::Healthz => "/healthz",
        Handler::Readyz => "/readyz",
    };
    let protected: bool = match handler {
        Handler::Healthz | Handler::Readyz => false,
        _ => true,
    };
    Route { method, path, handler, protected }
}

/// The routes of the service. Everything that can read the corpus sits behind the token; the
/// probes do not. The index is written only where that is enabled: its routes do not exist
/// otherwise.
pub fn router(index_writes: bool) -> (r: Vec<Route>)
    ensures
        forall|k: int| 0 <= k < r@.len() ==> proper(#[trigger] r@[k]),
        r@.map_values(|x: Route| x.handler).no_duplicates(),
        r@.map_values(|x: Route| x.handler).to_set() == served(index_writes),
{
    let mut out: Vec<Route> = Vec::new();
    out.push(route_of(Handler::AskStream));
    out.push(route_of(Handler::AskSync));
    out.push(route_of(Handler::GetAsk));
    out.push(route_of(Handler::Healthz));
    out.push(route_of(Handler::Readyz));
    if index_writes {
        out.push(route_of(Handler::PutChunk));
        out.push(route_of(Handler::DeleteChunk));
    }
    proof {
        let handlers = out@.map_values(|x: Route| x.handler);
        assert forall|h: Handler| served(index_writes).contains(h) implies handlers.contains(h) by {
            match h {
                Handler::AskStream => assert(handlers[0] == h),
                Handler::AskSync => assert(handlers[1] == h),
                Handler::GetAsk => assert(handlers[2] == h),
                Handler::Healthz => assert(handlers[3] == h),
                Handler::Readyz => assert(handlers[4] == h),
                Handler::PutChunk => assert(handlers[5] == h),
                Handler::DeleteChunk => assert(handlers[6] == h),
            }
        }
        assert(handlers.to_set() =~= served(index_writes));
    }
    out
}

/// No route that reads or writes the corpus is open, and none writes it unless that is enabled.
pub proof fn law_corpus_is_protected(index_writes: bool, routes: Vec<Route>, k: int)
    requires
        call_ensures(router, (index_writes,), routes),
        0 <= k < routes@.len(),
    ensures
        !routes@[k].protected ==> routes@[k].handler.probe(),
        routes@[k].handler.writes() ==> index_writes && routes@[k].protected,
{
    let handlers = routes@.map_values(|x: Route| x.handler);
    assert(handlers[k] == routes@[k].handler);
    assert(handlers.to_set().contains(handlers[k]));
}

} // verus!
