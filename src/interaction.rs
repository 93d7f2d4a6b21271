use vstd::prelude::*;
use crate::method::Method;
use crate::text::bytes_eq;
use crate::request::{RequestHeader, HttpError, headers_view, content_length_of, content_length, read_content};
use crate::signature::{interaction_verified, verify_interaction};
use crate::server::{ok_json_response, respond_ok_json};
use crate::client::{request_bytes, encode_request};
use crate::text::{decimal_text, push_decimal, push_all};

verus! {

/// Discriminator of a liveness check.
pub const INTERACTION_PING: i64 = 1;

/// Discriminator of an application command.
pub const INTERACTION_APP_CMD: i64 = 2;

/// What the handler reads of an interaction document: its integer `type`,
/// and the text of `data.name` as UTF-8 bytes.
pub struct Interaction {
    pub kind: Option<i64>,
    pub name: Option<Vec<u8>>,
}

/// The command name as a byte sequence.
pub open spec fn name_view(n: Option<Vec<u8>>) -> Option<Seq<u8>> {
    match n {
        Some(v) => Some(v@),
        None => None,
    }
}

/// In the JSON document `body`, the integer member `kind_key` and the string
/// member `inner` of the object member `outer` (each `None` where absent or
/// of another kind), or `None` where `body` is not JSON; as serde_json reads it.
pub uninterp spec fn json_fields(
    body: Seq<u8>,
    kind_key: Seq<char>,
    outer: Seq<char>,
    inner: Seq<char>,
) -> Option<(Option<i64>, Option<Seq<u8>>)>;

/// Relies on serde_json::from_slice into serde_json::Value, and on
/// Value::get, Value::as_i64 and Value::as_str to pick the members: the
/// outcome depends on the arguments alone.
#[verifier::external_body]
fn read_json_fields(body: &[u8], kind_key: &str, outer: &str, inner: &str) -> (r: Option<
    Interaction,
>)
    ensures
        match r {
            Some(i) => json_fields(body@, kind_key@, outer@, inner@) == Some(
                (i.kind, name_view(i.name)),
            ),
            None => json_fields(body@, kind_key@, outer@, inner@) is None,
        },
{
    let v: serde_json::Value = serde_json::from_slice(body).ok()?;
    let kind = v.get(kind_key).and_then(serde_json::Value::as_i64);
    let name = match v.get(outer) {
        Some(d) => d.get(inner).and_then(serde_json::Value::as_str),
        None => None,
    };
    Some(Interaction { kind, name: name.map(|s| s.as_bytes().to_vec()) })
}

/// The `type` and `data.name` members of an interaction document.
pub open spec fn interaction_fields(body: Seq<u8>) -> Option<(Option<i64>, Option<Seq<u8>>)> {
    json_fields(body, "type"@, "data"@, "name"@)
}

/// The reply to a liveness check: `{"type":1}`.
pub open spec fn pong_body() -> Seq<u8> {
    seq![123u8, 34u8, 116u8, 121u8, 112u8, 101u8, 34u8, 58u8, 49u8, 125u8]
}

/// The reply to the `hello` command: `{"data":{"content":"Hello, World!"},"type":4}`.
pub open spec fn hello_body() -> Seq<u8> {
    seq![123u8, 34u8, 100u8, 97u8, 116u8, 97u8, 34u8, 58u8, 123u8, 34u8, 99u8, 111u8, 110u8, 116u8, 101u8, 110u8, 116u8, 34u8, 58u8, 34u8, 72u8, 101u8, 108u8, 108u8, 111u8, 44u8, 32u8, 87u8, 111u8, 114u8, 108u8, 100u8, 33u8, 34u8, 125u8, 44u8, 34u8, 116u8, 121u8, 112u8, 101u8, 34u8, 58u8, 52u8, 125u8]
}

/// `hello`
pub open spec fn hello_name() -> Seq<u8> {
    seq![104u8, 101u8, 108u8, 108u8, 111u8]
}

/// The reply owed to an interaction whose signature checked out, given
/// what its document holds (`None`: the body is not JSON).
pub open spec fn interaction_outcome(fields: Option<(Option<i64>, Option<Seq<u8>>)>) -> Result<Seq<u8>, HttpError> {
    match fields {
        None => Err(HttpError::MalformedPayload),
        Some((kind, name)) => if kind == Some(INTERACTION_PING) {
            Ok(ok_json_response(pong_body()))
        } else if kind == Some(INTERACTION_APP_CMD) {
            if name == Some(hello_name()) {
                Ok(ok_json_response(hello_body()))
            } else {
                Err(HttpError::MalformedPayload)
            }
        } else {
            Err(HttpError::MalformedPayload)
        },
    }
}

/// A reply with its bytes as a sequence.
pub open spec fn reply_view(r: Result<Vec<u8>, HttpError>) -> Result<Seq<u8>, HttpError> {
    match r {
        Ok(b) => Ok(b@),
        Err(e) => Err(e),
    }
}

/// The reply to a verified interaction, from what its document holds.
pub fn interaction_reply(fields: Option<Interaction>) -> (r: Result<Vec<u8>, HttpError>)
    ensures
        reply_view(r) == interaction_outcome(
            match fields {
                Some(i) => Some((i.kind, name_view(i.name))),
                None => None,
            },
        ),
{
    match fields {
        None => Err(HttpError::MalformedPayload),
        Some(i) => {
            if i.kind == Some(INTERACTION_PING) {
                let body: Vec<u8> = vec![123u8, 34u8, 116u8, 121u8, 112u8, 101u8, 34u8, 58u8, 49u8, 125u8];
                Ok(respond_ok_json(body.as_slice()))
            } else if i.kind == Some(INTERACTION_APP_CMD) {
                let hello: Vec<u8> = vec![104u8, 101u8, 108u8, 108u8, 111u8];
                match i.name {
                    Some(n) => {
                        if bytes_eq(n.as_slice(), hello.as_slice()) {
                            let body: Vec<u8> = vec![123u8, 34u8, 100u8, 97u8, 116u8, 97u8, 34u8, 58u8, 123u8, 34u8, 99u8, 111u8, 110u8, 116u8, 101u8, 110u8, 116u8, 34u8, 58u8, 34u8, 72u8, 101u8, 108u8, 108u8, 111u8, 44u8, 32u8, 87u8, 111u8, 114u8, 108u8, 100u8, 33u8, 34u8, 125u8, 44u8, 34u8, 116u8, 121u8, 112u8, 101u8, 34u8, 58u8, 52u8, 125u8];
                            Ok(respond_ok_json(body.as_slice()))
                        } else {
                            Err(HttpError::MalformedPayload)
                        }
                    },
                    None => Err(HttpError::MalformedPayload),
                }
            } else {
                Err(HttpError::MalformedPayload)
            }
        },
    }
}

/// What a delivery with this head and body is answered with: a failed
/// signature check is a malformed request, decided before the body is read
/// as JSON.
pub open spec fn delivery_outcome(
    req: RequestHeader,
    body: Seq<u8>,
    public_key_hex: Seq<u8>,
) -> Result<Seq<u8>, HttpError> {
    if !interaction_verified(headers_view(req.headers@), body, public_key_hex) {
        Err(HttpError::MalformedRequest)
    } else {
        interaction_outcome(interaction_fields(body))
    }
}

/// Answers a delivery whose body has been read: the signature check first,
/// then the document.
pub fn respond_to_interaction(
    req: &RequestHeader,
    body: &[u8],
    public_key_hex: &[u8],
) -> (r: Result<Vec<u8>, HttpError>)
    ensures
        reply_view(r) == delivery_outcome(*req, body@, public_key_hex@),
{
    if !verify_interaction(req, body, public_key_hex) {
        return Err(HttpError::MalformedRequest);
    }
    let fields = read_json_fields(body, "type", "data", "name");
    interaction_reply(fields)
}

/// A delivery that fails the signature check is refused as a malformed
/// request whatever its body holds: the body is never read as JSON.
pub proof fn lemma_unverified_body_never_read(
    req: RequestHeader,
    body: Seq<u8>,
    public_key_hex: Seq<u8>,
)
    requires
        !interaction_verified(headers_view(req.headers@), body, public_key_hex),
    ensures
        delivery_outcome(req, body, public_key_hex) == Err::<Seq<u8>, HttpError>(
            HttpError::MalformedRequest,
        ),
{
}

/// How many body bytes an interaction delivery declares; only `POST` is taken.
pub fn interaction_body_length(req: &RequestHeader) -> (r: Result<usize, HttpError>)
    ensures
        req.method != Method::Post ==> r == Err::<usize, HttpError>(HttpError::MalformedRequest),
        req.method == Method::Post ==> match r {
            Ok(n) => content_length_of(headers_view(req.headers@)) == Some(n as int),
            Err(e) => content_length_of(headers_view(req.headers@)) is None
                && e == HttpError::MalformedRequest,
        },
{
    match req.method {
        Method::Post => content_length(req),
        _ => Err(HttpError::MalformedRequest),
    }
}

/// The interactions endpoint over the bytes that follow the head: method,
/// body framing, signature check, then the document.
pub fn interactions(
    req: &RequestHeader,
    input: &[u8],
    public_key_hex: &[u8],
) -> (r: Result<Vec<u8>, HttpError>)
    ensures
        req.method != Method::Post ==> r == Err::<Vec<u8>, HttpError>(HttpError::MalformedRequest),
        req.method == Method::Post ==> match content_length_of(headers_view(req.headers@)) {
            None => r == Err::<Vec<u8>, HttpError>(HttpError::MalformedRequest),
            Some(n) => if n <= input@.len() {
                reply_view(r) == delivery_outcome(*req, input@.subrange(0, n), public_key_hex@)
            } else {
                r == Err::<Vec<u8>, HttpError>(HttpError::Unclassified)
            },
        },
{
    match req.method {
        Method::Post => {},
        _ => {
            return Err(HttpError::MalformedRequest);
        },
    }
    let body = match read_content(req, input) {
        Err(e) => {
            return Err(e);
        },
        Ok(b) => b,
    };
    respond_to_interaction(req, body.as_slice(), public_key_hex)
}

/// The body that registers the `hello` command:
/// `{"description":"Hello, World!","name":"hello"}`.
pub open spec fn hello_command_body() -> Seq<u8> {
    seq![123u8, 34u8, 100u8, 101u8, 115u8, 99u8, 114u8, 105u8, 112u8, 116u8, 105u8, 111u8, 110u8, 34u8, 58u8, 34u8, 72u8, 101u8, 108u8, 108u8, 111u8, 44u8, 32u8, 87u8, 111u8, 114u8, 108u8, 100u8, 33u8, 34u8, 44u8, 34u8, 110u8, 97u8, 109u8, 101u8, 34u8, 58u8, 34u8, 104u8, 101u8, 108u8, 108u8, 111u8, 34u8, 125u8]
}

/// The host of the remote API: `discord.com`.
pub open spec fn api_host() -> Seq<u8> {
    seq![100u8, 105u8, 115u8, 99u8, 111u8, 114u8, 100u8, 46u8, 99u8, 111u8, 109u8]
}

/// The path under which an application's commands are registered.
pub open spec fn commands_path(appid: Seq<u8>) -> Seq<u8> {
    seq![47u8, 97u8, 112u8, 105u8, 47u8, 118u8, 49u8, 48u8, 47u8, 97u8, 112u8, 112u8, 108u8, 105u8, 99u8, 97u8, 116u8, 105u8, 111u8, 110u8, 115u8, 47u8] + appid + seq![47u8, 99u8, 111u8, 109u8, 109u8, 97u8, 110u8, 100u8, 115u8]
}

/// The fields of the registration request.
pub open spec fn registration_headers(token: Seq<u8>) -> Seq<(Seq<u8>, Seq<u8>)> {
    seq![
        (seq![65u8, 117u8, 116u8, 104u8, 111u8, 114u8, 105u8, 122u8, 97u8, 116u8, 105u8, 111u8, 110u8], seq![66u8, 111u8, 116u8, 32u8] + token),
        (seq![85u8, 115u8, 101u8, 114u8, 45u8, 65u8, 103u8, 101u8, 110u8, 116u8], seq![68u8, 105u8, 115u8, 99u8, 111u8, 114u8, 100u8, 66u8, 111u8, 116u8, 32u8, 40u8, 104u8, 116u8, 116u8, 112u8, 115u8, 58u8, 47u8, 47u8, 98u8, 97u8, 101u8, 107u8, 106u8, 111u8, 111u8, 110u8, 98u8, 111u8, 116u8, 46u8, 104u8, 101u8, 120u8, 97u8, 46u8, 112u8, 114u8, 111u8, 44u8, 32u8, 50u8, 46u8, 48u8, 41u8]),
        (seq![67u8, 111u8, 110u8, 116u8, 101u8, 110u8, 116u8, 45u8, 84u8, 121u8, 112u8, 101u8], seq![97u8, 112u8, 112u8, 108u8, 105u8, 99u8, 97u8, 116u8, 105u8, 111u8, 110u8, 47u8, 106u8, 115u8, 111u8, 110u8]),
        (seq![67u8, 111u8, 110u8, 116u8, 101u8, 110u8, 116u8, 45u8, 76u8, 101u8, 110u8, 103u8, 116u8, 104u8], decimal_text(hello_command_body().len())),
    ]
}

/// The bytes of the request that registers the `hello` command for the
/// application `appid`, authorised by the bot credential `token`.
pub fn register_hello_request(appid: &[u8], token: &[u8]) -> (r: Vec<u8>)
    ensures
        r@ == request_bytes(
            Method::Post,
            api_host(),
            commands_path(appid@),
            registration_headers(token@),
            hello_command_body(),
        ),
{
    let body: Vec<u8> = vec![123u8, 34u8, 100u8, 101u8, 115u8, 99u8, 114u8, 105u8, 112u8, 116u8, 105u8, 111u8, 110u8, 34u8, 58u8, 34u8, 72u8, 101u8, 108u8, 108u8, 111u8, 44u8, 32u8, 87u8, 111u8, 114u8, 108u8, 100u8, 33u8, 34u8, 44u8, 34u8, 110u8, 97u8, 109u8, 101u8, 34u8, 58u8, 34u8, 104u8, 101u8, 108u8, 108u8, 111u8, 34u8, 125u8];
    let mut path: Vec<u8> = vec![47u8, 97u8, 112u8, 105u8, 47u8, 118u8, 49u8, 48u8, 47u8, 97u8, 112u8, 112u8, 108u8, 105u8, 99u8, 97u8, 116u8, 105u8, 111u8, 110u8, 115u8, 47u8];
    push_all(&mut path, appid);
    let tail: Vec<u8> = vec![47u8, 99u8, 111u8, 109u8, 109u8, 97u8, 110u8, 100u8, 115u8];
    push_all(&mut path, tail.as_slice());
    let mut auth: Vec<u8> = vec![66u8, 111u8, 116u8, 32u8];
    push_all(&mut auth, token);
    let mut len: Vec<u8> = Vec::new();
    push_decimal(&mut len, body.len());
    let headers: Vec<(Vec<u8>, Vec<u8>)> = vec![
        (vec![65u8, 117u8, 116u8, 104u8, 111u8, 114u8, 105u8, 122u8, 97u8, 116u8, 105u8, 111u8, 110u8], auth),
        (vec![85u8, 115u8, 101u8, 114u8, 45u8, 65u8, 103u8, 101u8, 110u8, 116u8], vec![68u8, 105u8, 115u8, 99u8, 111u8, 114u8, 100u8, 66u8, 111u8, 116u8, 32u8, 40u8, 104u8, 116u8, 116u8, 112u8, 115u8, 58u8, 47u8, 47u8, 98u8, 97u8, 101u8, 107u8, 106u8, 111u8, 111u8, 110u8, 98u8, 111u8, 116u8, 46u8, 104u8, 101u8, 120u8, 97u8, 46u8, 112u8, 114u8, 111u8, 44u8, 32u8, 50u8, 46u8, 48u8, 41u8]),
        (vec![67u8, 111u8, 110u8, 116u8, 101u8, 110u8, 116u8, 45u8, 84u8, 121u8, 112u8, 101u8], vec![97u8, 112u8, 112u8, 108u8, 105u8, 99u8, 97u8, 116u8, 105u8, 111u8, 110u8, 47u8, 106u8, 115u8, 111u8, 110u8]),
        (vec![67u8, 111u8, 110u8, 116u8, 101u8, 110u8, 116u8, 45u8, 76u8, 101u8, 110u8, 103u8, 116u8, 104u8], len),
    ];
    let host: Vec<u8> = vec![100u8, 105u8, 115u8, 99u8, 111u8, 114u8, 100u8, 46u8, 99u8, 111u8, 109u8];
    assert(headers_view(headers@) =~= registration_headers(token@));
    assert(path@ =~= commands_path(appid@));
    encode_request(Method::Post, host.as_slice(), path.as_slice(), headers.as_slice(), body.as_slice())
}

} // verus!
