use vstd::prelude::*;
use crate::text::bytes_eq;

verus! {

/// The closed set of request verbs the engine understands.
#[derive(Clone, Copy, Debug, PartialEq, Eq, Structural)]
pub enum Method {
    Get,
    Head,
    Post,
    Put,
    Delete,
    Connect,
    Options,
    Trace,
    Patch,
}

/// The wire token of a verb, as bytes.
pub open spec fn method_token(m: Method) -> Seq<u8> {
    match m {
        Method::Get => seq![71u8, 69u8, 84u8],
        Method::Head => seq![72u8, 69u8, 65u8, 68u8],
        Method::Post => seq![80u8, 79u8, 83u8, 84u8],
        Method::Put => seq![80u8, 85u8, 84u8],
        Method::Delete => seq![68u8, 69u8, 76u8, 69u8, 84u8, 69u8],
        Method::Connect => seq![67u8, 79u8, 78u8, 78u8, 69u8, 67u8, 84u8],
        Method::Options => seq![79u8, 80u8, 84u8, 73u8, 79u8, 78u8, 83u8],
        Method::Trace => seq![84u8, 82u8, 65u8, 67u8, 69u8],
        Method::Patch => seq![80u8, 65u8, 84u8, 67u8, 72u8],
    }
}

/// The verb whose token is exactly `t`, if there is one.
pub open spec fn method_of(t: Seq<u8>) -> Option<Method> {
    if t == method_token(Method::Get) {
        Some(Method::Get)
    } else if t == method_token(Method::Head) {
        Some(Method::Head)
    } else if t == method_token(Method::Post) {
        Some(Method::Post)
    } else if t == method_token(Method::Put) {
        Some(Method::Put)
    } else if t == method_token(Method::Delete) {
        Some(Method::Delete)
    } else if t == method_token(Method::Connect) {
        Some(Method::Connect)
    } else if t == method_token(Method::Options) {
        Some(Method::Options)
    } else if t == method_token(Method::Trace) {
        Some(Method::Trace)
    } else if t == method_token(Method::Patch) {
        Some(Method::Patch)
    } else {
        None
    }
}

impl Method {
    /// Parses a verb token; anything but one of the nine exact tokens is refused.
    pub fn parse(token: &[u8]) -> (r: Option<Method>)
        ensures
            r == method_of(token@),
    {
        let all: [Method; 9] = [
            Method::Get,
            Method::Head,
            Method::Post,
            Method::Put,
            Method::Delete,
            Method::Connect,
            Method::Options,
            Method::Trace,
            Method::Patch,
        ];
        let mut i: usize = 0;
        while i < 9
            invariant
                0 <= i <= 9,
                all@ == seq![Method::Get, Method::Head, Method::Post, Method::Put, Method::Delete,
                    Method::Connect, Method::Options, Method::Trace, Method::Patch],
                forall|j: int| 0 <= j < i ==> token@ != method_token(#[trigger] all@[j]),
            decreases 9 - i,
        {
            let m = all[i];
            let t = m.encode();
            if bytes_eq(token, t.as_slice()) {
                return Some(m);
            }
            i = i + 1;
        }
        assert(token@ != method_token(all@[0]));
        assert(token@ != method_token(all@[1]));
        assert(token@ != method_token(all@[2]));
        assert(token@ != method_token(all@[3]));
        assert(token@ != method_token(all@[4]));
        assert(token@ != method_token(all@[5]));
        assert(token@ != method_token(all@[6]));
        assert(token@ != method_token(all@[7]));
        assert(token@ != method_token(all@[8]));
        None
    }

    /// The wire token of this verb.
    pub fn encode(self) -> (r: Vec<u8>)
        ensures
            r@ == method_token(self),
    {
        match self {
            Method::Get => vec![71u8, 69u8, 84u8],
            Method::Head => vec![72u8, 69u8, 65u8, 68u8],
            Method::Post => vec![80u8, 79u8, 83u8, 84u8],
            Method::Put => vec![80u8, 85u8, 84u8],
            Method::Delete => vec![68u8, 69u8, 76u8, 69u8, 84u8, 69u8],
            Method::Connect => vec![67u8, 79u8, 78u8, 78u8, 69u8, 67u8, 84u8],
            Method::Options => vec![79u8, 80u8, 84u8, 73u8, 79u8, 78u8, 83u8],
            Method::Trace => vec![84u8, 82u8, 65u8, 67u8, 69u8],
            Method::Patch => vec![80u8, 65u8, 84u8, 67u8, 72u8],
        }
    }
}

/// Decoding the token of a verb gives the verb back.
pub proof fn lemma_method_round_trip(m: Method)
    ensures
        method_of(method_token(m)) == Some(m),
{
    assert(method_token(Method::Get) != method_token(Method::Head));
    assert(method_token(Method::Get) != method_token(Method::Put));
    assert(method_token(Method::Post) != method_token(Method::Put));
    assert(method_token(Method::Head) != method_token(Method::Post));
    assert(method_token(Method::Patch) != method_token(Method::Trace));
}

/// A token that decodes to a verb is exactly that verb's token.
pub proof fn lemma_token_round_trip(t: Seq<u8>)
    requires
        method_of(t) is Some,
    ensures
        method_token(method_of(t)->0) == t,
{
}

} // verus!
