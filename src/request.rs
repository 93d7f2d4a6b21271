use vstd::prelude::*;
use vstd::slice::slice_subrange;
use crate::method::{Method, method_of, method_token, lemma_method_round_trip};
use crate::client::header_lines;
use crate::text::bytes_eq;
use crate::text::{
    CR, LF, SP, COLON, first_byte, first_pair, is_first_byte, is_first_pair, pair_at,
    lemma_first_byte_unique, lemma_first_pair_unique, find_until, find_pair, copy_range, decimal_value,
    parse_decimal,
};

verus! {

/// How a connection failed; the server turns the first three into a 401.
#[derive(Clone, Copy, Debug, PartialEq, Eq, Structural)]
pub enum HttpError {
    /// Bad request line, header, length, route, verb, or signature.
    MalformedRequest,
    /// The body parsed but does not have the expected structure.
    MalformedPayload,
    /// A read ran past its deadline.
    Timeout,
    /// Any other transport failure; answered with silence.
    Unclassified,
}

/// A parsed request head: verb, raw path, and the header fields in order.
pub struct RequestHeader {
    pub method: Method,
    pub path: Vec<u8>,
    pub headers: Vec<(Vec<u8>, Vec<u8>)>,
}

/// The fields as pairs of byte sequences.
pub open spec fn headers_view(hs: Seq<(Vec<u8>, Vec<u8>)>) -> Seq<(Seq<u8>, Seq<u8>)> {
    hs.map_values(|h: (Vec<u8>, Vec<u8>)| (h.0@, h.1@))
}

/// The request line `line` (terminator included): the verb before the first
/// space, and the path token after it, up to the next space or the line's end.
pub open spec fn request_line(line: Seq<u8>) -> Option<(Method, Seq<u8>)> {
    match first_byte(line, SP) {
        None => None,
        Some(k) => match method_of(line.subrange(0, k)) {
            None => None,
            Some(m) => {
                let rest = line.subrange(k + 1, line.len() as int);
                let e = match first_byte(rest, SP) {
                    Some(j) => j,
                    None => rest.len() as int,
                };
                Some((m, rest.subrange(0, e)))
            },
        },
    }
}

/// A header line: `Some(None)` for the bare CRLF that ends the head,
/// `Some(Some((name, value)))` for a field split at the first `": "` whose
/// value ends in CRLF (stripped), `None` for anything else.
pub open spec fn header_line(line: Seq<u8>) -> Option<Option<(Seq<u8>, Seq<u8>)>> {
    if line == seq![CR, LF] {
        Some(None)
    } else {
        match first_pair(line, COLON, SP) {
            None => None,
            Some(k) => {
                let v = line.subrange(k + 2, line.len() as int);
                if v.len() >= 2 && v[v.len() - 2] == CR && v[v.len() - 1] == LF {
                    Some(Some((line.subrange(0, k), v.subrange(0, v.len() - 2))))
                } else {
                    None
                }
            },
        }
    }
}

/// Where the line that starts at `i` ends: just past its LF, or at the end of input.
pub open spec fn line_end(s: Seq<u8>, i: int) -> int {
    match first_byte(s.subrange(i, s.len() as int), LF) {
        Some(k) => i + k + 1,
        None => s.len() as int,
    }
}

/// The header fields from position `i` up to and including the blank line,
/// with the position just past it.
pub open spec fn headers_from(s: Seq<u8>, i: int) -> Option<(Seq<(Seq<u8>, Seq<u8>)>, int)>
    decreases s.len() - i,
{
    if !(0 <= i < s.len()) {
        None
    } else {
        let e = line_end(s, i);
        if e <= i {
            None
        } else {
            match header_line(s.subrange(i, e)) {
                None => None,
                Some(None) => Some((seq![], e)),
                Some(Some(h)) => match headers_from(s, e) {
                    None => None,
                    Some((hs, end)) => Some((seq![h] + hs, end)),
                },
            }
        }
    }
}

/// The head at the start of `s`: verb, path, fields, and its length in bytes.
pub open spec fn head_of(s: Seq<u8>) -> Option<(Method, Seq<u8>, Seq<(Seq<u8>, Seq<u8>)>, int)> {
    if s.len() == 0 {
        None
    } else {
        match request_line(s.subrange(0, line_end(s, 0))) {
            None => None,
            Some((m, p)) => match headers_from(s, line_end(s, 0)) {
                None => None,
                Some((hs, end)) => Some((m, p, hs, end)),
            },
        }
    }
}

/// `a` put in front of the fields of a parse result.
pub open spec fn prepend(
    a: Seq<(Seq<u8>, Seq<u8>)>,
    r: Option<(Seq<(Seq<u8>, Seq<u8>)>, int)>,
) -> Option<(Seq<(Seq<u8>, Seq<u8>)>, int)> {
    match r {
        None => None,
        Some((hs, e)) => Some((a + hs, e)),
    }
}

/// Parses a request line (as read, terminator included).
pub fn parse_request_line(line: &[u8]) -> (r: Result<(Method, Vec<u8>), HttpError>)
    ensures
        match r {
            Ok((m, p)) => request_line(line@) == Some((m, p@)),
            Err(e) => request_line(line@) is None && e == HttpError::MalformedRequest,
        },
{
    let k = match find_until(line, SP) {
        None => {
            return Err(HttpError::MalformedRequest);
        },
        Some(k) => k,
    };
    let m = match Method::parse(slice_subrange(line, 0, k)) {
        None => {
            return Err(HttpError::MalformedRequest);
        },
        Some(m) => m,
    };
    let n = line.len();
    assert(k < n);
    let rest = slice_subrange(line, k + 1, n);
    let e = match find_until(rest, SP) {
        Some(j) => j,
        None => rest.len(),
    };
    Ok((m, copy_range(rest, 0, e)))
}

/// Parses one header line (as read, terminator included); `Ok(None)` is the
/// blank line that ends the head.
pub fn parse_header_line(line: &[u8]) -> (r: Result<Option<(Vec<u8>, Vec<u8>)>, HttpError>)
    ensures
        match r {
            Ok(None) => header_line(line@) == Some(None::<(Seq<u8>, Seq<u8>)>),
            Ok(Some((n, v))) => header_line(line@) == Some(Some((n@, v@))),
            Err(e) => header_line(line@) is None && e == HttpError::MalformedRequest,
        },
{
    if line.len() == 2 && line[0] == CR && line[1] == LF {
        assert(line@ =~= seq![CR, LF]);
        return Ok(None);
    }
    assert(line@ != seq![CR, LF]);
    let k = match find_pair(line, COLON, SP) {
        None => {
            return Err(HttpError::MalformedRequest);
        },
        Some(k) => k,
    };
    let n = line.len();
    if n - (k + 2) < 2 || line[n - 2] != CR || line[n - 1] != LF {
        return Err(HttpError::MalformedRequest);
    }
    let name = copy_range(line, 0, k);
    let value = copy_range(line, k + 2, n - 2);
    assert(value@ =~= line@.subrange(k + 2, n as int).subrange(0, n - 2 - (k + 2)));
    Ok(Some((name, value)))
}

/// End of the line that starts at `i`.
pub fn next_line_end(s: &[u8], i: usize) -> (r: usize)
    requires
        i <= s@.len(),
    ensures
        r as int == line_end(s@, i as int),
        i < s@.len() ==> i < r <= s@.len(),
{
    let rest = slice_subrange(s, i, s.len());
    match find_until(rest, LF) {
        Some(k) => i + k + 1,
        None => s.len(),
    }
}

/// Parses the head at the start of `s`; also returns how many bytes it took.
pub fn parse_head(s: &[u8]) -> (r: Result<(RequestHeader, usize), HttpError>)
    ensures
        match r {
            Ok((h, n)) => head_of(s@) == Some(
                (h.method, h.path@, headers_view(h.headers@), n as int),
            ),
            Err(e) => head_of(s@) is None && e == HttpError::MalformedRequest,
        },
{
    if s.len() == 0 {
        return Err(HttpError::MalformedRequest);
    }
    let e0 = next_line_end(s, 0);
    let (method, path) = match parse_request_line(slice_subrange(s, 0, e0)) {
        Err(e) => {
            return Err(e);
        },
        Ok(mp) => mp,
    };
    let mut headers: Vec<(Vec<u8>, Vec<u8>)> = Vec::new();
    let mut i: usize = e0;
    assert(headers_view(headers@) =~= Seq::<(Seq<u8>, Seq<u8>)>::empty());
    assert(prepend(Seq::empty(), headers_from(s@, i as int)) == headers_from(s@, e0 as int)) by {
        match headers_from(s@, i as int) {
            None => {},
            Some((hs, end)) => {
                assert(Seq::<(Seq<u8>, Seq<u8>)>::empty() + hs =~= hs);
            },
        }
    }
    loop
        invariant
            e0 <= i <= s@.len(),
            e0 as int == line_end(s@, 0),
            request_line(s@.subrange(0, e0 as int)) == Some((method, path@)),
            s@.len() > 0,
            headers_from(s@, e0 as int) == prepend(headers_view(headers@), headers_from(s@, i as int)),
        decreases s@.len() - i,
    {
        if i >= s.len() {
            return Err(HttpError::MalformedRequest);
        }
        let e = next_line_end(s, i);
        match parse_header_line(slice_subrange(s, i, e)) {
            Err(err) => {
                return Err(err);
            },
            Ok(None) => {
                assert(headers_view(headers@) + seq![] =~= headers_view(headers@));
                return Ok((RequestHeader { method, path, headers }, e));
            },
            Ok(Some((n, v))) => {
                let ghost old_view = headers_view(headers@);
                let ghost h = (n@, v@);
                headers.push((n, v));
                assert(headers_view(headers@) =~= old_view.push(h));
                assert(prepend(old_view, headers_from(s@, i as int)) == prepend(
                    headers_view(headers@),
                    headers_from(s@, e as int),
                )) by {
                    match headers_from(s@, e as int) {
                        None => {},
                        Some((hs, end)) => {
                            assert(old_view + (seq![h] + hs) =~= old_view.push(h) + hs);
                        },
                    }
                }
                i = e;
            },
        }
    }
}

/// `k` is the first field of `hs` named `name`.
pub open spec fn is_first_header(hs: Seq<(Seq<u8>, Seq<u8>)>, name: Seq<u8>, k: int) -> bool {
    0 <= k < hs.len() && hs[k].0 == name && forall|j: int| 0 <= j < k ==> hs[j].0 != name
}

/// The first field of `hs` named `name`, if there is one; names match exactly.
pub open spec fn first_header(hs: Seq<(Seq<u8>, Seq<u8>)>, name: Seq<u8>) -> Option<int> {
    if exists|k: int| is_first_header(hs, name, k) {
        Some(choose|k: int| is_first_header(hs, name, k))
    } else {
        None
    }
}

/// The value of the first field named `name`.
pub open spec fn header_value(hs: Seq<(Seq<u8>, Seq<u8>)>, name: Seq<u8>) -> Option<Seq<u8>> {
    match first_header(hs, name) {
        Some(k) => Some(hs[k].1),
        None => None,
    }
}

/// `Content-Length`
pub open spec fn content_length_name() -> Seq<u8> {
    seq![67u8, 111u8, 110u8, 116u8, 101u8, 110u8, 116u8, 45u8, 76u8, 101u8, 110u8, 103u8, 116u8, 104u8]
}

/// The declared body length: the first `Content-Length` field read as an
/// unsigned decimal integer.
pub open spec fn content_length_of(hs: Seq<(Seq<u8>, Seq<u8>)>) -> Option<int> {
    match header_value(hs, content_length_name()) {
        Some(v) => decimal_value(v),
        None => None,
    }
}

/// The bytes of `Content-Length`.
pub fn content_length_bytes() -> (r: Vec<u8>)
    ensures
        r@ == content_length_name(),
{
    vec![67u8, 111u8, 110u8, 116u8, 101u8, 110u8, 116u8, 45u8, 76u8, 101u8, 110u8, 103u8, 116u8, 104u8]
}

impl RequestHeader {
    /// Index of the first field named `name`.
    pub fn find_header(&self, name: &[u8]) -> (r: Option<usize>)
        ensures
            match r {
                Some(k) => first_header(headers_view(self.headers@), name@) == Some(k as int)
                    && k < self.headers@.len(),
                None => first_header(headers_view(self.headers@), name@) is None,
            },
    {
        let ghost hv = headers_view(self.headers@);
        let mut i: usize = 0;
        while i < self.headers.len()
            invariant
                i <= self.headers@.len(),
                hv == headers_view(self.headers@),
                forall|j: int| 0 <= j < i ==> hv[j].0 != name@,
            decreases self.headers@.len() - i,
        {
            if bytes_eq(self.headers[i].0.as_slice(), name) {
                proof {
                    let k = i as int;
                    assert(is_first_header(hv, name@, k));
                    let c = choose|c: int| is_first_header(hv, name@, c);
                    assert(is_first_header(hv, name@, c));
                    if c < k {
                        assert(hv[c].0 != name@);
                    } else if k < c {
                        assert(hv[k].0 != name@);
                    }
                }
                return Some(i);
            }
            i = i + 1;
        }
        None
    }
}

/// The declared body length of a request.
pub fn content_length(req: &RequestHeader) -> (r: Result<usize, HttpError>)
    ensures
        match r {
            Ok(n) => content_length_of(headers_view(req.headers@)) == Some(n as int),
            Err(e) => content_length_of(headers_view(req.headers@)) is None
                && e == HttpError::MalformedRequest,
        },
{
    let name = content_length_bytes();
    match req.find_header(name.as_slice()) {
        None => Err(HttpError::MalformedRequest),
        Some(k) => match parse_decimal(req.headers[k].1.as_slice()) {
            None => Err(HttpError::MalformedRequest),
            Some(n) => Ok(n),
        },
    }
}

/// Takes the body from `input`, the bytes that follow the head: exactly as
/// many as `Content-Length` declares, however many more there are. Input that
/// ends early is a transport failure.
pub fn read_content(req: &RequestHeader, input: &[u8]) -> (r: Result<Vec<u8>, HttpError>)
    ensures
        match content_length_of(headers_view(req.headers@)) {
            None => r == Err::<Vec<u8>, HttpError>(HttpError::MalformedRequest),
            Some(n) => if n <= input@.len() {
                r is Ok && r->Ok_0@ == input@.subrange(0, n)
            } else {
                r == Err::<Vec<u8>, HttpError>(HttpError::Unclassified)
            },
        },
{
    let n = match content_length(req) {
        Err(e) => {
            return Err(e);
        },
        Ok(n) => n,
    };
    if n > input.len() {
        return Err(HttpError::Unclassified);
    }
    Ok(copy_range(input, 0, n))
}

/// A header line that does not end in CRLF is always refused.
pub proof fn lemma_header_without_crlf(line: Seq<u8>)
    requires
        !(line.len() >= 2 && line[line.len() - 2] == CR && line[line.len() - 1] == LF),
    ensures
        header_line(line) is None,
{
    if line == seq![CR, LF] {
        assert(line[0] == CR && line[1] == LF);
    }
    match first_pair(line, COLON, SP) {
        None => {},
        Some(k) => {
            let v = line.subrange(k + 2, line.len() as int);
            if v.len() >= 2 {
                assert(v[v.len() - 2] == line[line.len() - 2]);
                assert(v[v.len() - 1] == line[line.len() - 1]);
            }
        },
    }
}

/// A request line without a space has no path token and is always refused.
pub proof fn lemma_request_line_without_path(line: Seq<u8>)
    requires
        forall|j: int| 0 <= j < line.len() ==> line[j] != SP,
    ensures
        request_line(line) is None,
{
}

/// A header field as written on the wire: `name: value` and CRLF.
pub open spec fn field_line(h: (Seq<u8>, Seq<u8>)) -> Seq<u8> {
    h.0 + seq![COLON, SP] + h.1 + seq![CR, LF]
}

/// `b` occurs nowhere in `s`.
pub open spec fn lacks(s: Seq<u8>, b: u8) -> bool {
    forall|j: int| 0 <= j < s.len() ==> s[j] != b
}

/// A field that reads back as written: no LF anywhere, and no `": "` in its name.
pub open spec fn plain_field(h: (Seq<u8>, Seq<u8>)) -> bool {
    &&& lacks(h.0, LF)
    &&& lacks(h.1, LF)
    &&& forall|j: int| !(#[trigger] pair_at(h.0, COLON, SP, j))
}

/// ` HTTP/1.1` and CRLF
pub open spec fn version_suffix() -> Seq<u8> {
    seq![32u8, 72u8, 84u8, 84u8, 80u8, 47u8, 49u8, 46u8, 49u8, 13u8, 10u8]
}

/// A request head as a client writes it: request line, fields, blank line.
pub open spec fn render_head(m: Method, path: Seq<u8>, hs: Seq<(Seq<u8>, Seq<u8>)>) -> Seq<u8> {
    method_token(m) + seq![SP] + path + version_suffix() + header_lines(hs) + seq![CR, LF]
}

proof fn lemma_line_end_at(s: Seq<u8>, i: int, k: int)
    requires
        0 <= i <= k < s.len(),
        s[k] == LF,
        forall|j: int| i <= j < k ==> s[j] != LF,
    ensures
        line_end(s, i) == k + 1,
{
    let sub = s.subrange(i, s.len() as int);
    assert(is_first_byte(sub, LF, k - i));
    lemma_first_byte_unique(sub, LF, k - i);
}

pub proof fn lemma_header_lines_cons(h: (Seq<u8>, Seq<u8>), t: Seq<(Seq<u8>, Seq<u8>)>)
    ensures
        header_lines(seq![h] + t) == field_line(h) + header_lines(t),
    decreases t.len(),
{
    let ht = seq![h] + t;
    if t.len() == 0 {
        assert(ht.drop_last() =~= Seq::<(Seq<u8>, Seq<u8>)>::empty());
        assert(ht.last() == h);
        assert(header_lines(ht) =~= field_line(h) + header_lines(t));
    } else {
        lemma_header_lines_cons(h, t.drop_last());
        assert(ht.drop_last() =~= seq![h] + t.drop_last());
        assert(ht.last() == t.last());
        assert(header_lines(ht) == header_lines(ht.drop_last()) + field_line(ht.last()));
        assert(header_lines(t) == header_lines(t.drop_last()) + field_line(t.last()));
        assert(header_lines(ht) =~= field_line(h) + header_lines(t));
    }
}

proof fn lemma_field_line_parses(h: (Seq<u8>, Seq<u8>))
    requires
        plain_field(h),
    ensures
        header_line(field_line(h)) == Some(Some(h)),
{
    let f = field_line(h);
    let n = h.0.len() as int;
    assert(f.len() >= 4);
    assert(f != seq![CR, LF]);
    assert(f[n] == COLON && f[n + 1] == SP);
    assert forall|j: int| 0 <= j < n implies !pair_at(f, COLON, SP, j) by {
        if j < n - 1 {
            assert(!pair_at(h.0, COLON, SP, j));
            assert(f[j] == h.0[j] && f[j + 1] == h.0[j + 1]);
        } else {
            assert(f[j + 1] == COLON);
        }
    }
    assert(is_first_pair(f, COLON, SP, n));
    lemma_first_pair_unique(f, COLON, SP, n);
    let v = f.subrange(n + 2, f.len() as int);
    assert(v =~= h.1 + seq![CR, LF]);
    assert(v.subrange(0, v.len() - 2) =~= h.1);
    assert(f.subrange(0, n) =~= h.0);
}

proof fn lemma_headers_rendered(s: Seq<u8>, i: int, hs: Seq<(Seq<u8>, Seq<u8>)>)
    requires
        0 <= i,
        forall|k: int| 0 <= k < hs.len() ==> plain_field(#[trigger] hs[k]),
        i + header_lines(hs).len() + 2 <= s.len(),
        s.subrange(i, i + header_lines(hs).len() + 2) == header_lines(hs) + seq![CR, LF],
    ensures
        headers_from(s, i) == Some((hs, i + header_lines(hs).len() + 2)),
    decreases hs.len(),
{
    let x = header_lines(hs) + seq![CR, LF];
    assert forall|j: int| 0 <= j < x.len() implies s[i + j] == x[j] by {
        assert(s.subrange(i, i + x.len())[j] == s[i + j]);
    }
    if hs.len() == 0 {
        assert(header_lines(hs) =~= Seq::<u8>::empty());
        assert(s[i] == CR && s[i + 1] == LF);
        lemma_line_end_at(s, i, i + 1);
        assert(s.subrange(i, i + 2) =~= seq![CR, LF]);
        assert(hs =~= seq![]);
    } else {
        let h = hs[0];
        let t = hs.drop_first();
        assert(hs =~= seq![h] + t);
        lemma_header_lines_cons(h, t);
        let f = field_line(h);
        let fl = f.len() as int;
        assert(plain_field(hs[0]));
        assert(x =~= f + (header_lines(t) + seq![CR, LF]));
        assert forall|j: int| 0 <= j < fl implies s[i + j] == f[j] by {
            assert(x[j] == f[j]);
        }
        assert(f[fl - 1] == LF);
        assert forall|j: int| i <= j < i + fl - 1 implies s[j] != LF by {
            assert(s[j] == f[j - i]);
            let n = h.0.len() as int;
            if j - i < n {
                assert(f[j - i] == h.0[j - i]);
            } else if j - i >= n + 2 && j - i < n + 2 + h.1.len() {
                assert(f[j - i] == h.1[j - i - n - 2]);
            }
        }
        lemma_line_end_at(s, i, i + fl - 1);
        assert(s.subrange(i, i + fl) =~= f);
        lemma_field_line_parses(h);
        assert forall|k: int| 0 <= k < t.len() implies plain_field(#[trigger] t[k]) by {
            assert(t[k] == hs[k + 1]);
        }
        let y = header_lines(t) + seq![CR, LF];
        assert(s.subrange(i + fl, i + fl + y.len()) =~= y) by {
            assert forall|j: int| 0 <= j < y.len() implies s.subrange(i + fl, i + fl + y.len())[j] == y[j] by {
                assert(x[fl + j] == y[j]);
            }
        }
        lemma_headers_rendered(s, i + fl, t);
    }
}

proof fn lemma_method_token_plain(m: Method)
    ensures
        lacks(method_token(m), SP),
        lacks(method_token(m), LF),
        method_token(m).len() > 0,
{
}

proof fn lemma_request_line_rendered(m: Method, path: Seq<u8>)
    requires
        lacks(path, SP),
    ensures
        request_line(method_token(m) + seq![SP] + path + version_suffix()) == Some((m, path)),
{
    let t = method_token(m);
    lemma_method_token_plain(m);
    lemma_method_round_trip(m);
    let line = t + seq![SP] + path + version_suffix();
    let ll = line.len() as int;
    assert(is_first_byte(line, SP, t.len() as int)) by {
        assert forall|j: int| 0 <= j < t.len() implies line[j] != SP by {
            assert(line[j] == t[j]);
        }
    }
    lemma_first_byte_unique(line, SP, t.len() as int);
    assert(line.subrange(0, t.len() as int) =~= t);
    let after = line.subrange(t.len() + 1 as int, ll);
    assert(after =~= path + version_suffix());
    assert(is_first_byte(after, SP, path.len() as int)) by {
        assert forall|j: int| 0 <= j < path.len() implies after[j] != SP by {
            assert(after[j] == path[j]);
        }
    }
    lemma_first_byte_unique(after, SP, path.len() as int);
    assert(after.subrange(0, path.len() as int) =~= path);
}

proof fn lemma_request_line_end(m: Method, path: Seq<u8>, tail: Seq<u8>)
    requires
        lacks(path, LF),
    ensures
        line_end(method_token(m) + seq![SP] + path + version_suffix() + tail, 0)
            == (method_token(m) + seq![SP] + path + version_suffix()).len(),
{
    let t = method_token(m);
    lemma_method_token_plain(m);
    let line = t + seq![SP] + path + version_suffix();
    let ll = line.len() as int;
    let s = line + tail;
    assert(version_suffix()[10] == LF);
    assert forall|j: int| 0 <= j < ll - 1 implies s[j] != LF by {
        assert(s[j] == line[j]);
        if j < t.len() {
            assert(line[j] == t[j]);
        } else if t.len() < j < t.len() + 1 + path.len() {
            assert(line[j] == path[j - t.len() - 1]);
        } else if j >= t.len() + 1 + path.len() {
            assert(line[j] == version_suffix()[j - t.len() - 1 - path.len()]);
        }
    }
    assert(s[ll - 1] == LF);
    lemma_line_end_at(s, 0, ll - 1);
}

/// Parsing a head recovers exactly what was written: the verb, the path,
/// and every field in order, duplicates included, whatever follows the head.
pub proof fn lemma_parse_rendered_head(
    m: Method,
    path: Seq<u8>,
    hs: Seq<(Seq<u8>, Seq<u8>)>,
    rest: Seq<u8>,
)
    requires
        lacks(path, SP),
        lacks(path, LF),
        forall|k: int| 0 <= k < hs.len() ==> plain_field(#[trigger] hs[k]),
    ensures
        head_of(render_head(m, path, hs) + rest) == Some(
            (m, path, hs, render_head(m, path, hs).len() as int),
        ),
{
    let line = method_token(m) + seq![SP] + path + version_suffix();
    let ll = line.len() as int;
    let hl = header_lines(hs) + seq![CR, LF];
    let s = render_head(m, path, hs) + rest;
    assert(s =~= line + (hl + rest));
    lemma_request_line_end(m, path, hl + rest);
    assert(s.subrange(0, ll) =~= line);
    lemma_request_line_rendered(m, path);
    assert(s.subrange(ll, ll + hl.len()) =~= hl);
    lemma_headers_rendered(s, ll, hs);
}

} // verus!
