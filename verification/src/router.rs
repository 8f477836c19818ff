//! The router: an exact-path lookup table from a path string to a handler.
//!
//! The table is generic in the handler value, so a caller may register any
//! capability — a closure type, an index, a message — and the contracts
//! speak of the table as a map from path to handler.  Matching is exact:
//! no wildcard, no prefix, no method dispatch.  Registering a path a second
//! time replaces the earlier handler; the table is meant to be built once at
//! startup and then shared read-only among the workers.

use vstd::prelude::*;

verus! {

/// One association of an exact path with a handler capability.
pub struct Route<H> {
    pub path: String,
    pub handler: H,
}

/// The routing table; its view is the map each path's latest handler.
pub struct Router<H> {
    routes: Vec<Route<H>>,
}

/// The map a list of routes denotes: later registrations win.
pub open spec fn routes_map<H>(rs: Seq<Route<H>>) -> Map<Seq<char>, H>
    decreases rs.len(),
{
    if rs.len() == 0 {
        Map::<Seq<char>, H>::empty()
    } else {
        routes_map(rs.drop_last()).insert(rs.last().path@, rs.last().handler)
    }
}

/// A key past the registered suffix is settled by the prefix.
proof fn lemma_routes_map_take<H>(rs: Seq<Route<H>>, i: int, k: Seq<char>)
    requires
        0 <= i <= rs.len(),
        forall|j: int| i <= j < rs.len() ==> (#[trigger] rs[j]).path@ != k,
    ensures
        routes_map(rs).contains_key(k) == routes_map(rs.take(i)).contains_key(k),
        routes_map(rs).contains_key(k) ==> routes_map(rs)[k] == routes_map(rs.take(i))[k],
    decreases rs.len() - i,
{
    if i < rs.len() {
        lemma_routes_map_take(rs, i + 1, k);
        assert(rs.take(i + 1).drop_last() =~= rs.take(i));
        assert(rs.take(i + 1).last() == rs[i]);
        assert(routes_map(rs.take(i + 1)) == routes_map(rs.take(i)).insert(
            rs[i].path@,
            rs[i].handler,
        ));
    } else {
        assert(rs.take(i) =~= rs);
    }
}

impl<H> Route<H> {
    /// Associates a path with a handler.
    pub fn new(path: String, handler: H) -> (r: Route<H>)
        ensures
            r.path@ == path@,
            r.handler == handler,
    {
        Route { path, handler }
    }
}

impl<H: Fn(crate::http_request::HttpRequest) -> crate::http_response::HttpResponse> Route<H> {
    /// Runs the handler on a request; what holds of the result is whatever
    /// the handler's own contract promises of it.
    pub fn handle(&self, request: crate::http_request::HttpRequest) -> (r:
        crate::http_response::HttpResponse)
        requires
            call_requires(self.handler, (request,)),
        ensures
            call_ensures(self.handler, (request,), r),
    {
        (self.handler)(request)
    }
}

impl<H> View for Router<H> {
    type V = Map<Seq<char>, H>;

    closed spec fn view(&self) -> Map<Seq<char>, H> {
        routes_map(self.routes@)
    }
}

impl<H> Router<H> {
    /// A table holding the given routes; on a path registered twice the
    /// later route wins.
    pub fn new(routes: Vec<Route<H>>) -> (r: Router<H>)
        ensures
            r@ == routes_map(routes@),
    {
        Router { routes }
    }

    /// Registers a handler for a path, replacing an earlier one.
    pub fn add_route(&mut self, path: String, handler: H)
        ensures
            final(self)@ == old(self)@.insert(path@, handler),
    {
        let ghost before = self.routes@;
        let route = Route { path, handler };
        self.routes.push(route);
        proof {
            assert(self.routes@.drop_last() =~= before);
        }
    }

    /// The route registered for exactly this path, if any: the latest one.
    #[verifier::loop_isolation(false)]
    pub fn get_handler(&self, path: &str) -> (r: Option<&Route<H>>)
        ensures
            match r {
                Some(route) => self@.contains_key(path@) && route.path@ == path@ && route.handler
                    == self@[path@],
                None => !self@.contains_key(path@),
            },
    {
        let n = self.routes.len();
        let mut i: usize = n;
        while i > 0
            invariant
                i <= n == self.routes@.len(),
                forall|j: int| i <= j < n ==> (#[trigger] self.routes@[j]).path@ != path@,
            decreases i,
        {
            i = i - 1;
            if self.routes[i].path == path.to_owned() {
                proof {
                    lemma_routes_map_take(self.routes@, i as int + 1, path@);
                    assert(self.routes@.take(i as int + 1).drop_last() =~= self.routes@.take(
                        i as int,
                    ));
                    assert(self.routes@.take(i as int + 1).last() == self.routes@[i as int]);
                }
                return Some(&self.routes[i]);
            }
        }
        proof {
            lemma_routes_map_take(self.routes@, 0, path@);
            assert(self.routes@.take(0) =~= Seq::<Route<H>>::empty());
        }
        None
    }
}

/// Looking a path up right after registering it yields the handler just
/// registered, and only it: a second registration of the same path
/// replaces the first, never joins it.
pub proof fn lemma_register_then_lookup<H>(table: Map<Seq<char>, H>, p: Seq<char>, h1: H, h2: H)
    ensures
        table.insert(p, h1).contains_key(p),
        table.insert(p, h1)[p] == h1,
        table.insert(p, h1).insert(p, h2).contains_key(p),
        table.insert(p, h1).insert(p, h2)[p] == h2,
{
}

} // verus!
