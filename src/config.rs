use vstd::prelude::*;
use vstd::slice::slice_subrange;
use crate::text::bytes_eq;
use crate::text::{LF, first_byte, find_until, copy_range};

verus! {

/// The process configuration: the bot credential, the hex public key that
/// deliveries are verified against, and the application identifier.
pub struct Env {
    pub token: Vec<u8>,
    pub pubkey: Vec<u8>,
    pub appid: Vec<u8>,
}

/// `DISCORD_TOKEN`
pub open spec fn token_key() -> Seq<u8> {
    seq![68u8, 73u8, 83u8, 67u8, 79u8, 82u8, 68u8, 95u8, 84u8, 79u8, 75u8, 69u8, 78u8]
}

/// `PUBLIC_KEY`
pub open spec fn pubkey_key() -> Seq<u8> {
    seq![80u8, 85u8, 66u8, 76u8, 73u8, 67u8, 95u8, 75u8, 69u8, 89u8]
}

/// `APP_ID`
pub open spec fn appid_key() -> Seq<u8> {
    seq![65u8, 80u8, 80u8, 95u8, 73u8, 68u8]
}

/// A setting as a byte sequence.
pub open spec fn opt_view(o: Option<Vec<u8>>) -> Option<Seq<u8>> {
    match o {
        Some(v) => Some(v@),
        None => None,
    }
}

/// Reads `NAME=value` lines from `s` until all three settings are known,
/// a later line for a name replacing an earlier one. Text before an `=` that
/// is not one of the three names, or a value without its LF, is refused.
pub open spec fn env_from(
    s: Seq<u8>,
    t: Option<Seq<u8>>,
    p: Option<Seq<u8>>,
    a: Option<Seq<u8>>,
) -> Option<(Seq<u8>, Seq<u8>, Seq<u8>)>
    decreases s.len(),
{
    if t is Some && p is Some && a is Some {
        Some((t->0, p->0, a->0))
    } else {
        match first_byte(s, 61u8) {
            None => None,
            Some(k) => {
                if !(0 <= k < s.len()) {
                    None
                } else {
                    let name = s.subrange(0, k);
                    let r = s.subrange(k + 1, s.len() as int);
                    match first_byte(r, LF) {
                        None => None,
                        Some(e) => {
                            if !(0 <= e < r.len()) {
                                None
                            } else {
                                let v = r.subrange(0, e);
                                let left = r.subrange(e + 1, r.len() as int);
                                if name == token_key() {
                                    env_from(left, Some(v), p, a)
                                } else if name == pubkey_key() {
                                    env_from(left, t, Some(v), a)
                                } else if name == appid_key() {
                                    env_from(left, t, p, Some(v))
                                } else {
                                    None
                                }
                            }
                        },
                    }
                }
            },
        }
    }
}

/// Reads the configuration from the text of an environment file.
pub fn parse_env(s: &[u8]) -> (r: Option<Env>)
    ensures
        match r {
            Some(e) => env_from(s@, None, None, None) == Some((e.token@, e.pubkey@, e.appid@)),
            None => env_from(s@, None, None, None) is None,
        },
{
    let token_name: Vec<u8> = vec![68u8, 73u8, 83u8, 67u8, 79u8, 82u8, 68u8, 95u8, 84u8, 79u8, 75u8, 69u8, 78u8];
    let pubkey_name: Vec<u8> = vec![80u8, 85u8, 66u8, 76u8, 73u8, 67u8, 95u8, 75u8, 69u8, 89u8];
    let appid_name: Vec<u8> = vec![65u8, 80u8, 80u8, 95u8, 73u8, 68u8];
    let mut token: Option<Vec<u8>> = None;
    let mut pubkey: Option<Vec<u8>> = None;
    let mut appid: Option<Vec<u8>> = None;
    let mut pos: usize = 0;
    assert(s@.subrange(0, s@.len() as int) =~= s@);
    loop
        invariant
            pos <= s@.len(),
            token_name@ == token_key(),
            pubkey_name@ == pubkey_key(),
            appid_name@ == appid_key(),
            env_from(s@, None, None, None) == env_from(
                s@.subrange(pos as int, s@.len() as int),
                opt_view(token),
                opt_view(pubkey),
                opt_view(appid),
            ),
        decreases s@.len() - pos,
    {
        let ghost left = s@.subrange(pos as int, s@.len() as int);
        match (&token, &pubkey, &appid) {
            (Some(t), Some(p), Some(a)) => {
                let env = Env { token: t.clone(), pubkey: p.clone(), appid: a.clone() };
                return Some(env);
            },
            _ => {},
        }
        let rest = slice_subrange(s, pos, s.len());
        let k = match find_until(rest, 61u8) {
            None => {
                return None;
            },
            Some(k) => k,
        };
        let name = slice_subrange(rest, 0, k);
        let after = slice_subrange(rest, k + 1, rest.len());
        let e = match find_until(after, LF) {
            None => {
                return None;
            },
            Some(e) => e,
        };
        let value = copy_range(after, 0, e);
        let ghost next = after@.subrange(e + 1, after@.len() as int);
        assert(next =~= s@.subrange(pos + k + 1 + e + 1, s@.len() as int));
        if bytes_eq(name, token_name.as_slice()) {
            token = Some(value);
        } else if bytes_eq(name, pubkey_name.as_slice()) {
            pubkey = Some(value);
        } else if bytes_eq(name, appid_name.as_slice()) {
            appid = Some(value);
        } else {
            return None;
        }
        pos = pos + k + 1 + e + 1;
    }
}

} // verus!
