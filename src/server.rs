use vstd::prelude::*;
use crate::request::{HttpError, RequestHeader, head_of, headers_view, parse_head};
use crate::text::bytes_eq;
use crate::text::{decimal_text, push_decimal, push_all};

verus! {

/// `HTTP/1.1 401 Unauthorized` with an empty head and no body.
pub open spec fn unauthorized_response() -> Seq<u8> {
    seq![72u8, 84u8, 84u8, 80u8, 47u8, 49u8, 46u8, 49u8, 32u8, 52u8, 48u8, 49u8, 32u8, 85u8, 110u8, 97u8, 117u8, 116u8, 104u8, 111u8, 114u8, 105u8, 122u8, 101u8, 100u8, 13u8, 10u8, 13u8, 10u8]
}

/// The head of a JSON reply up to the value of its `Content-Length` field:
/// status `200 OK`, the agent string, and `Content-Type: application/json`.
pub open spec fn ok_json_head() -> Seq<u8> {
    seq![72u8, 84u8, 84u8, 80u8, 47u8, 49u8, 46u8, 49u8, 32u8, 50u8, 48u8, 48u8, 32u8, 79u8, 75u8, 13u8, 10u8, 85u8, 115u8, 101u8, 114u8, 45u8, 65u8, 103u8, 101u8, 110u8, 116u8, 58u8, 32u8, 68u8, 105u8, 115u8, 99u8, 111u8, 114u8, 100u8, 66u8, 111u8, 116u8, 32u8, 40u8, 104u8, 116u8, 116u8, 112u8, 115u8, 58u8, 47u8, 47u8, 98u8, 97u8, 101u8, 107u8, 106u8, 111u8, 111u8, 110u8, 98u8, 111u8, 116u8, 46u8, 104u8, 101u8, 120u8, 97u8, 46u8, 112u8, 114u8, 111u8, 44u8, 32u8, 50u8, 46u8, 48u8, 41u8, 13u8, 10u8, 67u8, 111u8, 110u8, 116u8, 101u8, 110u8, 116u8, 45u8, 84u8, 121u8, 112u8, 101u8, 58u8, 32u8, 97u8, 112u8, 112u8, 108u8, 105u8, 99u8, 97u8, 116u8, 105u8, 111u8, 110u8, 47u8, 106u8, 115u8, 111u8, 110u8, 13u8, 10u8, 67u8, 111u8, 110u8, 116u8, 101u8, 110u8, 116u8, 45u8, 76u8, 101u8, 110u8, 103u8, 116u8, 104u8, 58u8, 32u8]
}

/// A complete `200 OK` reply that carries `body` as JSON.
pub open spec fn ok_json_response(body: Seq<u8>) -> Seq<u8> {
    ok_json_head() + decimal_text(body.len()) + seq![13u8, 10u8, 13u8, 10u8] + body
}

/// What a failed connection answers: the 401 status line for malformed input,
/// a malformed payload or a timeout; nothing for any other failure.
pub open spec fn failure_reply(e: HttpError) -> Option<Seq<u8>> {
    match e {
        HttpError::Unclassified => None,
        _ => Some(unauthorized_response()),
    }
}

/// The bytes of the 401 reply.
pub fn unauthorized() -> (r: Vec<u8>)
    ensures
        r@ == unauthorized_response(),
{
    vec![72u8, 84u8, 84u8, 80u8, 47u8, 49u8, 46u8, 49u8, 32u8, 52u8, 48u8, 49u8, 32u8, 85u8, 110u8, 97u8, 117u8, 116u8, 104u8, 111u8, 114u8, 105u8, 122u8, 101u8, 100u8, 13u8, 10u8, 13u8, 10u8]
}

/// The reply owed to the peer after a failure, if any.
pub fn failure_response(e: HttpError) -> (r: Option<Vec<u8>>)
    ensures
        match r {
            Some(b) => failure_reply(e) == Some(b@),
            None => failure_reply(e) is None,
        },
{
    match e {
        HttpError::Unclassified => None,
        _ => Some(unauthorized()),
    }
}

/// Frames `body` as a `200 OK` JSON reply with a matching `Content-Length`.
pub fn respond_ok_json(body: &[u8]) -> (r: Vec<u8>)
    ensures
        r@ == ok_json_response(body@),
{
    let mut out: Vec<u8> = vec![72u8, 84u8, 84u8, 80u8, 47u8, 49u8, 46u8, 49u8, 32u8, 50u8, 48u8, 48u8, 32u8, 79u8, 75u8, 13u8, 10u8, 85u8, 115u8, 101u8, 114u8, 45u8, 65u8, 103u8, 101u8, 110u8, 116u8, 58u8, 32u8, 68u8, 105u8, 115u8, 99u8, 111u8, 114u8, 100u8, 66u8, 111u8, 116u8, 32u8, 40u8, 104u8, 116u8, 116u8, 112u8, 115u8, 58u8, 47u8, 47u8, 98u8, 97u8, 101u8, 107u8, 106u8, 111u8, 111u8, 110u8, 98u8, 111u8, 116u8, 46u8, 104u8, 101u8, 120u8, 97u8, 46u8, 112u8, 114u8, 111u8, 44u8, 32u8, 50u8, 46u8, 48u8, 41u8, 13u8, 10u8, 67u8, 111u8, 110u8, 116u8, 101u8, 110u8, 116u8, 45u8, 84u8, 121u8, 112u8, 101u8, 58u8, 32u8, 97u8, 112u8, 112u8, 108u8, 105u8, 99u8, 97u8, 116u8, 105u8, 111u8, 110u8, 47u8, 106u8, 115u8, 111u8, 110u8, 13u8, 10u8, 67u8, 111u8, 110u8, 116u8, 101u8, 110u8, 116u8, 45u8, 76u8, 101u8, 110u8, 103u8, 116u8, 104u8, 58u8, 32u8];
    push_decimal(&mut out, body.len());
    out.push(13u8);
    out.push(10u8);
    out.push(13u8);
    out.push(10u8);
    push_all(&mut out, body);
    assert(out@ =~= ok_json_response(body@));
    out
}

/// The table that a list of routes builds: later entries for the same path
/// replace earlier ones.
pub open spec fn route_map<H>(rs: Seq<(Seq<u8>, H)>) -> Map<Seq<u8>, H>
    decreases rs.len(),
{
    if rs.len() == 0 {
        Map::empty()
    } else {
        route_map(rs.drop_last()).insert(rs.last().0, rs.last().1)
    }
}

/// The routes with their paths as byte sequences.
pub open spec fn routes_view<H>(rs: Seq<(Vec<u8>, H)>) -> Seq<(Seq<u8>, H)> {
    rs.map_values(|r: (Vec<u8>, H)| (r.0@, r.1))
}

/// A listening address and an immutable table from exact paths to handlers.
pub struct Server<H> {
    addr: String,
    routes: Vec<(Vec<u8>, H)>,
}

impl<H> Server<H> {
    /// The route table, from exact path to handler.
    pub closed spec fn table(&self) -> Map<Seq<u8>, H> {
        route_map(routes_view(self.routes@))
    }

    /// The address to listen on.
    pub closed spec fn address(&self) -> Seq<char> {
        self.addr@
    }

    /// A server for `addr` whose table holds `routes`, later duplicates winning.
    pub fn new(addr: String, routes: Vec<(Vec<u8>, H)>) -> (r: Server<H>)
        ensures
            r.table() == route_map(routes_view(routes@)),
            r.address() == addr@,
    {
        Server { addr, routes }
    }

    /// The address to listen on.
    pub fn addr(&self) -> (r: &String)
        ensures
            r@ == self.address(),
    {
        &self.addr
    }

    /// The handler registered for exactly `path`.
    pub fn route(&self, path: &[u8]) -> (r: Option<&H>)
        ensures
            match r {
                Some(h) => self.table().contains_key(path@) && self.table()[path@] == *h,
                None => !self.table().contains_key(path@),
            },
    {
        let ghost rv = routes_view(self.routes@);
        let mut i: usize = self.routes.len();
        assert(rv.subrange(0, i as int) =~= rv);
        while i > 0
            invariant
                i <= self.routes@.len(),
                rv == routes_view(self.routes@),
                route_map(rv).contains_key(path@) == route_map(rv.subrange(0, i as int)).contains_key(path@),
                route_map(rv).contains_key(path@) ==> route_map(rv)[path@] == route_map(rv.subrange(0, i as int))[path@],
            decreases i,
        {
            let ghost prefix = rv.subrange(0, i as int);
            assert(prefix.drop_last() =~= rv.subrange(0, i - 1));
            assert(prefix.last() == rv[i - 1]);
            if bytes_eq(self.routes[i - 1].0.as_slice(), path) {
                return Some(&self.routes[i - 1].1);
            }
            i = i - 1;
        }
        assert(rv.subrange(0, 0) =~= Seq::<(Seq<u8>, H)>::empty());
        None
    }
}

/// Routing is exact: a path resolves to the handler of the last route that
/// names it, and a path that no route names resolves to nothing.
pub proof fn lemma_route_exact<H>(rs: Seq<(Seq<u8>, H)>, path: Seq<u8>)
    ensures
        route_map(rs).contains_key(path) <==> exists|i: int| 0 <= i < rs.len() && rs[i].0 == path,
    decreases rs.len(),
{
    if rs.len() > 0 {
        lemma_route_exact(rs.drop_last(), path);
        if route_map(rs.drop_last()).contains_key(path) {
            let i = choose|i: int| 0 <= i < rs.drop_last().len() && rs.drop_last()[i].0 == path;
            assert(rs[i].0 == path);
        }
        if exists|i: int| 0 <= i < rs.len() && rs[i].0 == path {
            let i = choose|i: int| 0 <= i < rs.len() && rs[i].0 == path;
            if i < rs.len() - 1 {
                assert(rs.drop_last()[i].0 == path);
            }
        }
    }
}

/// Parses the head at the start of `input` and finds its handler: the parsed
/// head, the handler, and where the body starts. A head that does not parse
/// and a path with no route are both malformed requests.
pub fn dispatch<'a, H>(server: &'a Server<H>, input: &[u8]) -> (r: Result<
    (RequestHeader, &'a H, usize),
    HttpError,
>)
    ensures
        match r {
            Ok((req, h, n)) => head_of(input@) == Some(
                (req.method, req.path@, headers_view(req.headers@), n as int),
            ) && server.table().contains_key(req.path@) && server.table()[req.path@] == *h,
            Err(e) => e == HttpError::MalformedRequest && (head_of(input@) is None || (
            head_of(input@) is Some && !server.table().contains_key((head_of(input@)->0).1))),
        },
{
    let (req, n) = match parse_head(input) {
        Err(e) => {
            return Err(e);
        },
        Ok(p) => p,
    };
    match server.route(req.path.as_slice()) {
        None => Err(HttpError::MalformedRequest),
        Some(h) => Ok((req, h, n)),
    }
}

/// What is written back on a connection once its handler has returned:
/// the handler's reply, the 401 line for a classified failure, or nothing.
pub fn connection_reply(outcome: Result<Vec<u8>, HttpError>) -> (r: Option<Vec<u8>>)
    ensures
        match outcome {
            Ok(b) => r == Some(b),
            Err(e) => match r {
                Some(b) => failure_reply(e) == Some(b@),
                None => failure_reply(e) is None,
            },
        },
{
    match outcome {
        Ok(b) => Some(b),
        Err(e) => failure_response(e),
    }
}

} // verus!
