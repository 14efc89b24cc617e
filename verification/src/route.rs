//! The dispatch table: from method and path to a handler, and from the
//! handler's outcome to the bytes that are sent.

use vstd::prelude::*;
use crate::common::{HttpRequest, HttpResponse, ResponseModel};
use crate::handler::{Endpoint, Handler, HandlerError};
use crate::literals::{
    bad_request_wire, bad_request_wire_bytes, body_not_found, hello_key, hello_key_bytes,
    http_version, long_query_key, long_query_key_bytes, reason_not_found, server_error_wire,
    server_error_wire_bytes,
};
use crate::parser::{parse_http_request, parse_request};
use crate::text::{append_bytes, same_bytes};

verus! {

/// The key under which a route is looked up: method, one space, path.
pub open spec fn route_key(method: Seq<u8>, path: Seq<u8>) -> Seq<u8> {
    method + seq![32u8] + path
}

/// Whether `key` is among `keys`.
pub open spec fn has_key(keys: Seq<Seq<u8>>, key: Seq<u8>) -> bool {
    exists|i: int| 0 <= i < keys.len() && #[trigger] keys[i] == key
}

/// The bytes sent for a request that no route matches.
pub open spec fn not_found_wire() -> Seq<u8> {
    (ResponseModel {
        version: http_version(),
        status_code: 404,
        status_message: reason_not_found(),
        fields: Seq::empty(),
        body: body_not_found(),
    }).wire()
}

/// The bytes sent for what a handler returned: its response as it is
/// serialised, or the fixed answer for a failure, which holds nothing of the
/// failure's detail.
pub open spec fn outcome_wire(outcome: Result<HttpResponse, HandlerError>) -> Seq<u8> {
    match outcome {
        Ok(response) => response@.wire(),
        Err(_) => server_error_wire(),
    }
}

/// The position of the route that counts for `key`: the last one with
/// that key. `None` where there is none.
pub open spec fn route_of(keys: Seq<Seq<u8>>, key: Seq<u8>) -> Option<int>
    decreases keys.len(),
{
    if keys.len() == 0 {
        None
    } else if keys.last() == key {
        Some(keys.len() - 1)
    } else {
        route_of(keys.drop_last(), key)
    }
}

/// The route that counts for a key is the last one with that key, and there
/// is one exactly where the key is registered.
pub proof fn lemma_route_of(keys: Seq<Seq<u8>>, key: Seq<u8>)
    ensures
        match route_of(keys, key) {
            Some(i) => 0 <= i < keys.len() && keys[i] == key && forall|j: int|
                i < j < keys.len() ==> keys[j] != key,
            None => !has_key(keys, key),
        },
    decreases keys.len(),
{
    if keys.len() > 0 && keys.last() != key {
        let d = keys.drop_last();
        lemma_route_of(d, key);
        match route_of(d, key) {
            Some(i) => {
                assert(keys[i] == d[i]);
                assert forall|j: int| i < j < keys.len() implies keys[j] != key by {
                    if j < d.len() {
                        assert(d[j] != key);
                    }
                }
            },
            None => {
                if has_key(keys, key) {
                    let i = choose|i: int| 0 <= i < keys.len() && #[trigger] keys[i] == key;
                    assert(d[i] == key);
                }
            },
        }
    }
}

/// Whether `bytes` can be sent for `request` once the handler `handler` was
/// found for it: what is sent for an outcome that the handler may return.
pub open spec fn is_handled_wire<H: Handler>(
    handler: H,
    request: HttpRequest,
    bytes: Seq<u8>,
) -> bool {
    exists|outcome: Result<HttpResponse, HandlerError>| #[trigger]
        handler.answers(request, outcome) && bytes == outcome_wire(outcome)
}

/// One route: a key and the handler registered for it.
pub struct RouteEntry<H> {
    pub key: Vec<u8>,
    pub handler: H,
}

/// The dispatch table. It is built once and never changes, so any number of
/// readers may share it.
pub struct Route<H> {
    handler_map: Vec<RouteEntry<H>>,
}

impl Route<Endpoint> {
    /// The table of the sample handlers.
    pub fn new() -> (r: Self)
        ensures
            r.keys() == seq![hello_key(), long_query_key()],
            r.handlers() == seq![Endpoint::Greeting, Endpoint::LongQuery],
    {
        let mut entries: Vec<RouteEntry<Endpoint>> = Vec::new();
        entries.push(RouteEntry { key: hello_key_bytes(), handler: Endpoint::Greeting });
        entries.push(RouteEntry { key: long_query_key_bytes(), handler: Endpoint::LongQuery });
        let r = Route { handler_map: entries };
        assert(r.keys() =~= seq![hello_key(), long_query_key()]);
        assert(r.handlers() =~= seq![Endpoint::Greeting, Endpoint::LongQuery]);
        r
    }
}

impl<H: Handler> Route<H> {
    /// The registered keys, in the order of registration.
    pub closed spec fn keys(&self) -> Seq<Seq<u8>> {
        Seq::new(self.handler_map@.len(), |i: int| self.handler_map@[i].key@)
    }

    /// The registered handlers, in the order of registration.
    pub closed spec fn handlers(&self) -> Seq<H> {
        Seq::new(self.handler_map@.len(), |i: int| self.handler_map@[i].handler)
    }

    /// Whether a route is registered for `key`.
    pub open spec fn has_route(&self, key: Seq<u8>) -> bool {
        has_key(self.keys(), key)
    }

    /// A table of the given routes. Where a key comes twice the later
    /// route counts.
    pub fn with_routes(entries: Vec<RouteEntry<H>>) -> (r: Self)
        ensures
            r.keys() == Seq::new(entries@.len(), |i: int| entries@[i].key@),
            r.handlers() == Seq::new(entries@.len(), |i: int| entries@[i].handler),
    {
        Route { handler_map: entries }
    }

    /// The position of the route registered for `key`: the last one with
    /// exactly that key. No case is folded and nothing is normalised.
    pub fn find(&self, key: &[u8]) -> (r: Option<usize>)
        ensures
            self.keys().len() == self.handlers().len(),
            match r {
                Some(i) => route_of(self.keys(), key@) == Some(i as int),
                None => route_of(self.keys(), key@).is_none(),
            },
    {
        let mut i: usize = self.handler_map.len();
        while i > 0
            invariant
                i <= self.handler_map@.len(),
                forall|j: int| i <= j < self.keys().len() ==> self.keys()[j] != key@,
            decreases i,
        {
            i = i - 1;
            if same_bytes(self.handler_map[i].key.as_slice(), key) {
                proof {
                    lemma_route_of(self.keys(), key@);
                    assert(self.keys()[i as int] == key@);
                }
                return Some(i);
            }
        }
        proof {
            lemma_route_of(self.keys(), key@);
        }
        None
    }

    /// Answers a request: the response of the handler registered for its
    /// method and path; the fixed answer for a failure where that handler
    /// fails; and where none is registered the answer that says so, without
    /// any handler being called.
    pub fn process_request(&self, http_req: HttpRequest) -> (r: Vec<u8>)
        ensures
            match route_of(self.keys(), route_key(http_req.method@, http_req.path@)) {
                Some(i) => 0 <= i < self.handlers().len() && is_handled_wire(
                    self.handlers()[i],
                    http_req,
                    r@,
                ),
                None => r@ == not_found_wire(),
            },
    {
        let mut key: Vec<u8> = Vec::new();
        append_bytes(&mut key, http_req.method.as_slice());
        key.push(32u8);
        append_bytes(&mut key, http_req.path.as_slice());
        assert(key@ =~= route_key(http_req.method@, http_req.path@));
        match self.find(key.as_slice()) {
            Some(i) => {
                proof {
                    lemma_route_of(self.keys(), key@);
                }
                assert(self.handlers()[i as int] == self.handler_map@[i as int].handler);
                let outcome = self.handler_map[i].handler.handle(http_req);
                respond(outcome)
            },
            None => HttpResponse::NotFound().plain_text(),
        }
    }
}

/// The bytes to send for what a handler returned.
pub fn respond(outcome: Result<HttpResponse, HandlerError>) -> (r: Vec<u8>)
    ensures
        r@ == outcome_wire(outcome),
{
    match outcome {
        Ok(response) => response.plain_text(),
        Err(_) => server_error_wire_bytes(),
    }
}

/// Serves one connection: reads the request from the bytes that came,
/// and answers it. A request that cannot be read gets the fixed answer for
/// a malformed request, and no route is looked up.
pub fn handle_connection<H: Handler>(router: &Route<H>, input: &[u8]) -> (r: Vec<u8>)
    ensures
        match parse_request(input@) {
            Err(_) => r@ == bad_request_wire(),
            Ok(m) => match route_of(router.keys(), route_key(m.method, m.path)) {
                Some(i) => 0 <= i < router.handlers().len() && exists|request: HttpRequest|
                    request@ == m && #[trigger] is_handled_wire(router.handlers()[i], request, r@),
                None => r@ == not_found_wire(),
            },
        },
{
    match parse_http_request(input) {
        Ok(req) => router.process_request(req),
        Err(_) => bad_request_wire_bytes(),
    }
}

} // verus!
