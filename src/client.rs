use vstd::prelude::*;
use crate::method::{Method, method_token};
use crate::text::bytes_eq;
use crate::request::{
    headers_view, field_line, head_of, lacks, plain_field, render_head, version_suffix,
    lemma_header_lines_cons, lemma_parse_rendered_head,
};
use crate::text::{COLON, SP, pair_at};
use crate::text::push_all;
use vstd::slice::slice_subrange;

verus! {

/// The header fields, each written `name: value` and ended by CRLF.
pub open spec fn header_lines(hs: Seq<(Seq<u8>, Seq<u8>)>) -> Seq<u8>
    decreases hs.len(),
{
    if hs.len() == 0 {
        seq![]
    } else {
        header_lines(hs.drop_last()) + field_line(hs.last())
    }
}

/// ` HTTP/1.1` and CRLF, then `Host: `
pub open spec fn version_and_host() -> Seq<u8> {
    seq![32u8, 72u8, 84u8, 84u8, 80u8, 47u8, 49u8, 46u8, 49u8, 13u8, 10u8, 72u8, 111u8, 115u8, 116u8, 58u8, 32u8]
}

/// CRLF, then `Connection: close` and CRLF
pub open spec fn connection_close() -> Seq<u8> {
    seq![13u8, 10u8, 67u8, 111u8, 110u8, 110u8, 101u8, 99u8, 116u8, 105u8, 111u8, 110u8, 58u8, 32u8, 99u8, 108u8, 111u8, 115u8, 101u8, 13u8, 10u8]
}

/// The bytes of a client request: the request line, `Host`,
/// `Connection: close`, the given fields in order, a blank line, the body.
pub open spec fn request_bytes(
    m: Method,
    host: Seq<u8>,
    path: Seq<u8>,
    hs: Seq<(Seq<u8>, Seq<u8>)>,
    body: Seq<u8>,
) -> Seq<u8> {
    method_token(m) + seq![32u8] + path + version_and_host() + host + connection_close()
        + header_lines(hs) + seq![13u8, 10u8] + body
}

/// `HTTP/1.1 200 OK`
pub open spec fn success_status() -> Seq<u8> {
    seq![72u8, 84u8, 84u8, 80u8, 47u8, 49u8, 46u8, 49u8, 32u8, 50u8, 48u8, 48u8, 32u8, 79u8, 75u8]
}

/// Frames a one-shot request to `host`; the connection is closed after it.
pub fn encode_request(
    method: Method,
    host: &[u8],
    path: &[u8],
    headers: &[(Vec<u8>, Vec<u8>)],
    body: &[u8],
) -> (r: Vec<u8>)
    ensures
        r@ == request_bytes(method, host@, path@, headers_view(headers@), body@),
{
    let mut out = method.encode();
    out.push(32u8);
    push_all(&mut out, path);
    let vh: Vec<u8> = vec![32u8, 72u8, 84u8, 84u8, 80u8, 47u8, 49u8, 46u8, 49u8, 13u8, 10u8, 72u8, 111u8, 115u8, 116u8, 58u8, 32u8];
    push_all(&mut out, vh.as_slice());
    push_all(&mut out, host);
    let cc: Vec<u8> = vec![13u8, 10u8, 67u8, 111u8, 110u8, 110u8, 101u8, 99u8, 116u8, 105u8, 111u8, 110u8, 58u8, 32u8, 99u8, 108u8, 111u8, 115u8, 101u8, 13u8, 10u8];
    push_all(&mut out, cc.as_slice());
    let ghost start = out@;
    let ghost hv = headers_view(headers@);
    let mut i: usize = 0;
    assert(hv.subrange(0, 0) =~= Seq::<(Seq<u8>, Seq<u8>)>::empty());
    assert(out@ =~= start + header_lines(hv.subrange(0, 0)));
    while i < headers.len()
        invariant
            i <= headers@.len(),
            hv == headers_view(headers@),
            out@ == start + header_lines(hv.subrange(0, i as int)),
        decreases headers@.len() - i,
    {
        let ghost before = out@;
        push_all(&mut out, headers[i].0.as_slice());
        out.push(58u8);
        out.push(32u8);
        push_all(&mut out, headers[i].1.as_slice());
        out.push(13u8);
        out.push(10u8);
        let ghost next = hv.subrange(0, i + 1);
        assert(next.drop_last() =~= hv.subrange(0, i as int));
        assert(next.last() == (headers@[i as int].0@, headers@[i as int].1@));
        assert(out@ =~= before + headers@[i as int].0@ + seq![58u8, 32u8] + headers@[i as int].1@
            + seq![13u8, 10u8]);
        i = i + 1;
    }
    assert(hv.subrange(0, i as int) =~= hv);
    out.push(13u8);
    out.push(10u8);
    push_all(&mut out, body);
    assert(out@ =~= request_bytes(method, host@, path@, hv, body@));
    out
}

/// Whether a raw response starts with the success status line.
pub fn is_success(response: &[u8]) -> (r: bool)
    ensures
        r == (response@.len() >= 15 && response@.subrange(0, 15) == success_status()),
{
    if response.len() < 15 {
        return false;
    }
    let ok: Vec<u8> = vec![72u8, 84u8, 84u8, 80u8, 47u8, 49u8, 46u8, 49u8, 32u8, 50u8, 48u8, 48u8, 32u8, 79u8, 75u8];
    bytes_eq(slice_subrange(response, 0, 15), ok.as_slice())
}

/// The `Host` field that a client request carries.
pub open spec fn host_field(host: Seq<u8>) -> (Seq<u8>, Seq<u8>) {
    (seq![72u8, 111u8, 115u8, 116u8], host)
}

/// The `Connection: close` field that a client request carries.
pub open spec fn close_field() -> (Seq<u8>, Seq<u8>) {
    (seq![67u8, 111u8, 110u8, 110u8, 101u8, 99u8, 116u8, 105u8, 111u8, 110u8], seq![99u8, 108u8, 111u8, 115u8, 101u8])
}

/// What the client writes, the server's parser reads back: the verb, the
/// path, and the fields `Host`, `Connection` and then the caller's own in
/// order; the body starts where the head ends.
pub proof fn lemma_request_round_trip(
    m: Method,
    host: Seq<u8>,
    path: Seq<u8>,
    hs: Seq<(Seq<u8>, Seq<u8>)>,
    body: Seq<u8>,
)
    requires
        lacks(path, SP),
        lacks(path, 10u8),
        lacks(host, 10u8),
        forall|k: int| 0 <= k < hs.len() ==> plain_field(#[trigger] hs[k]),
    ensures
        head_of(request_bytes(m, host, path, hs, body)) == Some(
            (
                m,
                path,
                seq![host_field(host), close_field()] + hs,
                request_bytes(m, host, path, hs, body).len() - body.len(),
            ),
        ),
{
    let hf = host_field(host);
    let cf = close_field();
    let all = seq![hf, cf] + hs;
    assert(all =~= seq![hf] + (seq![cf] + hs));
    lemma_header_lines_cons(hf, seq![cf] + hs);
    lemma_header_lines_cons(cf, hs);
    assert(plain_field(hf)) by {
        assert(forall|j: int| !(#[trigger] pair_at(hf.0, COLON, SP, j)));
    }
    assert(plain_field(cf)) by {
        assert(forall|j: int| !(#[trigger] pair_at(cf.0, COLON, SP, j)));
    }
    assert forall|k: int| 0 <= k < all.len() implies plain_field(#[trigger] all[k]) by {
        if k >= 2 {
            assert(all[k] == hs[k - 2]);
        }
    }
    assert(version_and_host() =~= version_suffix() + hf.0 + seq![COLON, SP]);
    assert(connection_close() =~= seq![13u8, 10u8] + cf.0 + seq![COLON, SP] + cf.1 + seq![13u8, 10u8]);
    assert(request_bytes(m, host, path, hs, body) =~= render_head(m, path, all) + body);
    lemma_parse_rendered_head(m, path, all, body);
}

} // verus!
