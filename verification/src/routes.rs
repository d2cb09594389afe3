//! The routing table: exact (method, path) pairs mapped to handlers,
//! and the dispatcher that serves one parsed request.

use vstd::prelude::*;
use crate::bytes::bytes_eq;
use crate::methods::{method_of, Methods};
use crate::request::{parse_ok, req_matches, request_line_of, Request};
use crate::request::request_line::{method_token_of, url_of};
use crate::response::{bad_request_wire, is_bad_request, is_not_found,
    lemma_bad_request_serializes, lemma_not_found_serializes, not_found_wire, serial_bytes,
    BaseResponse, Response};

verus! {

/// One route: an exact path and its handler.
pub struct RouteEntry<H> {
    pub path: Vec<u8>,
    pub handler: H,
}

/// The routes of one method, in registration order.
pub struct RouteMap<H> {
    pub entries: Vec<RouteEntry<H>>,
}

/// The position of the first route with path `p`, or `s.len()` if none.
pub open spec fn route_index<H>(s: Seq<(Seq<u8>, H)>, p: Seq<u8>) -> int
    decreases s.len(),
{
    if s.len() == 0 {
        0
    } else if s[0].0 == p {
        0
    } else {
        1 + route_index(s.subrange(1, s.len() as int), p)
    }
}

/// `route_index` finds the first route with path `p`: nothing before it
/// has that path, and an index of `s.len()` means no route has it.
pub proof fn lemma_route_index<H>(s: Seq<(Seq<u8>, H)>, p: Seq<u8>)
    ensures
        0 <= route_index(s, p) <= s.len(),
        route_index(s, p) < s.len() ==> s[route_index(s, p)].0 == p,
        forall|j: int| 0 <= j < route_index(s, p) ==> s[j].0 != p,
    decreases s.len(),
{
    if s.len() == 0 {
    } else if s[0].0 == p {
    } else {
        let tail = s.subrange(1, s.len() as int);
        lemma_route_index(tail, p);
        assert forall|j: int| 0 <= j < route_index(s, p) implies s[j].0 != p by {
            if j > 0 {
                assert(tail[j - 1].0 != p);
            }
        }
    }
}

/// `s` with `p` routed to `h`: overwrites the first route with path `p`
/// in place, or appends a new route when `p` is absent.
pub open spec fn route_insert<H>(s: Seq<(Seq<u8>, H)>, p: Seq<u8>, h: H) -> Seq<(Seq<u8>, H)> {
    let i = route_index(s, p);
    if i < s.len() {
        s.update(i, (p, h))
    } else {
        s.push((p, h))
    }
}

/// The handler routed for `p`, if any.
pub open spec fn route_get<H>(s: Seq<(Seq<u8>, H)>, p: Seq<u8>) -> Option<H> {
    let i = route_index(s, p);
    if i < s.len() {
        Some(s[i].1)
    } else {
        None
    }
}

/// After a registration, looking the same pair up returns the handler
/// just registered — the last one registered for that pair — and every
/// other pair answers as before.
pub proof fn lemma_register_then_lookup<H>(s: Seq<(Seq<u8>, H)>, p: Seq<u8>, h: H)
    ensures
        route_get(route_insert(s, p, h), p) == Some(h),
        forall|q: Seq<u8>| q != p ==> route_get(route_insert(s, p, h), q) == route_get(s, q),
{
    lemma_route_insert_get(s, p, h, p);
    assert forall|q: Seq<u8>| q != p implies
        route_get(route_insert(s, p, h), q) == route_get(s, q) by {
        lemma_route_insert_get(s, p, h, q);
    }
}

/// Two sequences whose paths agree pointwise are searched alike.
proof fn lemma_route_index_same_keys<H>(s: Seq<(Seq<u8>, H)>, t: Seq<(Seq<u8>, H)>, q: Seq<u8>)
    requires
        s.len() == t.len(),
        forall|j: int| 0 <= j < s.len() ==> s[j].0 == t[j].0,
    ensures
        route_index(s, q) == route_index(t, q),
    decreases s.len(),
{
    if s.len() == 0 {
    } else if s[0].0 == q {
    } else {
        let st = s.subrange(1, s.len() as int);
        let tt = t.subrange(1, t.len() as int);
        assert forall|j: int| 0 <= j < st.len() implies st[j].0 == tt[j].0 by {
            assert(st[j] == s[j + 1]);
            assert(tt[j] == t[j + 1]);
        }
        lemma_route_index_same_keys(st, tt, q);
    }
}

/// How one lookup answers after one insertion.
proof fn lemma_route_insert_get<H>(s: Seq<(Seq<u8>, H)>, p: Seq<u8>, h: H, q: Seq<u8>)
    ensures
        q == p ==> route_get(route_insert(s, p, h), q) == Some(h),
        q != p ==> route_get(route_insert(s, p, h), q) == route_get(s, q),
{
    let t = route_insert(s, p, h);
    lemma_route_index(s, p);
    lemma_route_index(s, q);
    lemma_route_index(t, q);
    let i = route_index(s, p);
    let sj = route_index(s, q);
    let tj = route_index(t, q);
    if i < s.len() {
        // overwrite in place: paths agree pointwise
        assert forall|j: int| 0 <= j < s.len() implies s[j].0 == t[j].0 by {
            if j == i {
                assert(s[i].0 == p);
            }
        }
        lemma_route_index_same_keys(s, t, q);
        if q == p {
            assert(tj == i);
            assert(t[i] == (p, h));
        } else {
            if sj < s.len() {
                assert(t[sj].0 == q);
                assert(sj != i);
                assert(t[sj] == s[sj]);
            }
        }
    } else {
        // append at the end
        assert(t == s.push((p, h)));
        assert(t[s.len() as int] == (p, h));
        if q == p {
            if tj < s.len() {
                assert(t[tj] == s[tj]);
                assert(s[tj].0 != p);
                assert(false);
            }
            assert(tj <= s.len());
            assert(t[s.len() as int].0 == p);
            assert(tj == s.len());
        } else {
            if sj < s.len() {
                // q found in s: same position, same handler in t
                assert(t[sj] == s[sj]);
                assert(t[sj].0 == q);
                if tj < sj {
                    assert(t[tj] == s[tj]);
                    assert(s[tj].0 != q);
                    assert(t[tj].0 == q);
                    assert(false);
                }
                if tj > sj {
                    assert(t[sj].0 != q);
                    assert(false);
                }
                assert(tj == sj);
            } else {
                // q absent from s and from t
                if tj < t.len() {
                    assert(t[tj].0 == q);
                    if tj < s.len() {
                        assert(t[tj] == s[tj]);
                        assert(s[tj].0 != q);
                    } else {
                        assert(tj == s.len());
                        assert(t[tj].0 == p);
                    }
                    assert(false);
                }
            }
        }
    }
}

impl<H> RouteMap<H> {
    /// The mathematical value: path/handler pairs in registration
    /// order.
    pub open spec fn view_pairs(&self) -> Seq<(Seq<u8>, H)> {
        self.entries@.map(|i: int, e: RouteEntry<H>| (e.path@, e.handler))
    }

    /// An empty route map.
    pub fn new() -> (r: RouteMap<H>)
        ensures
            r.view_pairs() == Seq::<(Seq<u8>, H)>::empty(),
    {
        let r = RouteMap { entries: Vec::new() };
        proof {
            assert(r.view_pairs() =~= Seq::<(Seq<u8>, H)>::empty());
        }
        r
    }

    /// The position of the first route with path `p`, or the length if
    /// none.
    fn find_path(&self, p: &[u8]) -> (r: usize)
        ensures
            r == route_index(self.view_pairs(), p@),
    {
        let n = self.entries.len();
        let mut i: usize = 0;
        while i < n
            invariant
                n == self.view_pairs().len(),
                n == self.entries@.len(),
                0 <= i <= n,
                forall|j: int| 0 <= j < i ==> self.view_pairs()[j].0 != p@,
            decreases n - i,
        {
            if bytes_eq(self.entries[i].path.as_slice(), p) {
                proof {
                    assert(self.view_pairs()[i as int].0 == p@);
                    lemma_route_index(self.view_pairs(), p@);
                    let ri = route_index(self.view_pairs(), p@);
                    if ri < i {
                        assert(self.view_pairs()[ri].0 != p@);
                    }
                    if ri > i {
                        assert(self.view_pairs()[i as int].0 != p@);
                    }
                }
                return i;
            }
            i += 1;
        }
        proof {
            lemma_route_index(self.view_pairs(), p@);
            let ri = route_index(self.view_pairs(), p@);
            if ri < n {
                assert(self.view_pairs()[ri].0 != p@);
            }
        }
        n
    }

    /// Route `p` to `h`, overwriting in place when `p` is already
    /// routed.
    pub fn insert(&mut self, p: Vec<u8>, h: H)
        ensures
            final(self).view_pairs() == route_insert(old(self).view_pairs(), p@, h),
    {
        let i = self.find_path(p.as_slice());
        let ghost old_view = self.view_pairs();
        if i < self.entries.len() {
            self.entries[i] = RouteEntry { path: p, handler: h };
            proof {
                assert(self.view_pairs() =~= old_view.update(i as int, (p@, h)));
            }
        } else {
            self.entries.push(RouteEntry { path: p, handler: h });
            proof {
                assert(self.view_pairs() =~= old_view.push((p@, h)));
            }
        }
    }

    /// The handler routed for `p`, if any.
    pub fn get(&self, p: &[u8]) -> (r: Option<&H>)
        ensures
            match r {
                Some(h) => route_get(self.view_pairs(), p@) == Some(*h),
                None => route_get(self.view_pairs(), p@) is None,
            },
    {
        let i = self.find_path(p);
        if i < self.entries.len() {
            Some(&self.entries[i].handler)
        } else {
            None
        }
    }
}

/// Logic that turns a parsed request into a response. Handlers are the
/// server's users' own; nothing is assumed of what they return.
pub trait Handler {
    /// Serve one request.
    fn handle(&self, request: Request) -> Response;
}

/// One route map per method.
pub struct RouteTable<H> {
    pub get_routes: RouteMap<H>,
    pub post_routes: RouteMap<H>,
}

impl<H> RouteTable<H> {
    /// The routes of one method.
    pub open spec fn routes_of(&self, m: Methods) -> Seq<(Seq<u8>, H)> {
        match m {
            Methods::Get => self.get_routes.view_pairs(),
            Methods::Post => self.post_routes.view_pairs(),
        }
    }

    /// A table with no routes.
    pub fn new() -> (r: RouteTable<H>)
        ensures
            r.routes_of(Methods::Get) == Seq::<(Seq<u8>, H)>::empty(),
            r.routes_of(Methods::Post) == Seq::<(Seq<u8>, H)>::empty(),
    {
        RouteTable { get_routes: RouteMap::new(), post_routes: RouteMap::new() }
    }

    /// The route map of `method`.
    pub fn get(&self, method: &Methods) -> (r: &RouteMap<H>)
        ensures
            r.view_pairs() == self.routes_of(*method),
    {
        match method {
            Methods::Get => &self.get_routes,
            Methods::Post => &self.post_routes,
        }
    }

    /// Route `(method, path)` to `h`.
    pub fn register(&mut self, method: Methods, path: Vec<u8>, h: H)
        ensures
            final(self).routes_of(method) == route_insert(old(self).routes_of(method), path@, h),
            forall|m: Methods| m != method
                ==> final(self).routes_of(m) == old(self).routes_of(m),
    {
        match method {
            Methods::Get => self.get_routes.insert(path, h),
            Methods::Post => self.post_routes.insert(path, h),
        }
    }
}

/// The registration surface: routes handlers by method and path.
pub struct Api<H> {
    pub routes: RouteTable<H>,
}

impl<H> Api<H> {
    /// An API with no routes.
    pub fn new() -> (r: Api<H>)
        ensures
            r.routes.routes_of(Methods::Get) == Seq::<(Seq<u8>, H)>::empty(),
            r.routes.routes_of(Methods::Post) == Seq::<(Seq<u8>, H)>::empty(),
    {
        Api { routes: RouteTable::new() }
    }

    /// Route a `GET` path.
    pub fn get(&mut self, route: &[u8], f: H)
        ensures
            final(self).routes.routes_of(Methods::Get)
                == route_insert(old(self).routes.routes_of(Methods::Get), route@, f),
            final(self).routes.routes_of(Methods::Post)
                == old(self).routes.routes_of(Methods::Post),
    {
        self.response(Methods::Get, route, f);
    }

    /// Route a `POST` path.
    pub fn post(&mut self, route: &[u8], f: H)
        ensures
            final(self).routes.routes_of(Methods::Post)
                == route_insert(old(self).routes.routes_of(Methods::Post), route@, f),
            final(self).routes.routes_of(Methods::Get)
                == old(self).routes.routes_of(Methods::Get),
    {
        self.response(Methods::Post, route, f);
    }

    /// Route a path for `method`.
    pub fn response(&mut self, method: Methods, route: &[u8], f: H)
        ensures
            final(self).routes.routes_of(method)
                == route_insert(old(self).routes.routes_of(method), route@, f),
            forall|m: Methods| m != method
                ==> final(self).routes.routes_of(m) == old(self).routes.routes_of(m),
    {
        let path = vstd::slice::slice_to_vec(route);
        self.routes.register(method, path, f);
    }
}

/// The method a raw buffer asks for.
pub open spec fn method_of_buf(buf: Seq<u8>) -> Methods {
    method_of(method_token_of(request_line_of(buf)))
}

/// The path a raw buffer asks for.
pub open spec fn url_of_buf(buf: Seq<u8>) -> Seq<u8> {
    url_of(request_line_of(buf))
}

/// Serve one connection's request: parse, look the route up, invoke
/// the handler; a request that will not parse is answered with
/// `400 Bad Request`, a miss with the fixed `404 Not Found` response,
/// and a hit with exactly what the registered handler returned for the
/// parsed request.
pub fn dispatch<H: Handler>(table: &RouteTable<H>, raw: &[u8]) -> (r: Response)
    ensures
        !parse_ok(raw@) ==> is_bad_request(r),
        parse_ok(raw@) && route_get(table.routes_of(method_of_buf(raw@)), url_of_buf(raw@))
            is None ==> is_not_found(r),
        parse_ok(raw@) && route_get(table.routes_of(method_of_buf(raw@)), url_of_buf(raw@))
            is Some ==> exists|hh: &H, req: Request|
                route_get(table.routes_of(method_of_buf(raw@)), url_of_buf(raw@)) == Some(*hh)
                && req_matches(raw@, req)
                && #[trigger] call_ensures(H::handle, (hh, req), r),
{
    match Request::parse(raw) {
        Err(_) => BaseResponse::client_error().bad_request(),
        Ok(req) => {
            let method = req.request_line.method;
            let map = table.get(&method);
            let found = map.get(req.request_line.url.as_slice());
            match found {
                None => BaseResponse::client_error().not_found(),
                Some(h) => {
                    let ghost req_snapshot = req;
                    let r = h.handle(req);
                    proof {
                        assert(route_get(table.routes_of(method_of_buf(raw@)),
                            url_of_buf(raw@)) == Some(*h));
                        assert(req_matches(raw@, req_snapshot)
                            && call_ensures(H::handle, (h, req_snapshot), r));
                    }
                    r
                },
            }
        },
    }
}

/// Serve one connection end to end: parse, look the route up, invoke
/// the handler, serialize. A miss answers with the fixed not-found
/// bytes, an unparsable request with the bad-request bytes, and a hit
/// with the serialized form of exactly what the registered handler
/// returned for the parsed request.
pub fn handle_request<H: Handler>(table: &RouteTable<H>, raw: &[u8]) -> (r: Vec<u8>)
    ensures
        !parse_ok(raw@) ==> r@ == bad_request_wire(),
        parse_ok(raw@) && route_get(table.routes_of(method_of_buf(raw@)), url_of_buf(raw@))
            is None ==> r@ == not_found_wire(),
        parse_ok(raw@) && route_get(table.routes_of(method_of_buf(raw@)), url_of_buf(raw@))
            is Some ==> exists|hh: &H, req: Request, resp: Response|
                route_get(table.routes_of(method_of_buf(raw@)), url_of_buf(raw@)) == Some(*hh)
                && req_matches(raw@, req)
                && #[trigger] call_ensures(H::handle, (hh, req), resp)
                && r@ == serial_bytes(resp),
{
    let mut response = dispatch(table, raw);
    let ghost response_snapshot = response;
    proof {
        if !parse_ok(raw@) {
            lemma_bad_request_serializes(response);
        } else if route_get(table.routes_of(method_of_buf(raw@)), url_of_buf(raw@)) is None {
            lemma_not_found_serializes(response);
        }
    }
    let bytes = response.as_bytes();
    proof {
        if parse_ok(raw@) && route_get(table.routes_of(method_of_buf(raw@)),
            url_of_buf(raw@)) is Some {
            let (hh, req) = choose|hh: &H, req: Request|
                route_get(table.routes_of(method_of_buf(raw@)), url_of_buf(raw@)) == Some(*hh)
                && req_matches(raw@, req)
                && #[trigger] call_ensures(H::handle, (hh, req), response_snapshot);
            assert(route_get(table.routes_of(method_of_buf(raw@)), url_of_buf(raw@))
                == Some(*hh)
                && req_matches(raw@, req)
                && call_ensures(H::handle, (hh, req), response_snapshot)
                && bytes@ == serial_bytes(response_snapshot));
        }
    }
    bytes
}

} // verus!
