//! The control channel: who may give a running service commands.
use vstd::prelude::*;
use vstd::string::*;
use vstd::utf8::*;

verus! {

/// What is said to those who show the wrong token.
pub open spec fn refused() -> Seq<char> {
    "鉴权失败：token 不匹配"@
}

/// Compares two byte strings in a time that depends on their lengths alone.
pub fn constant_time_eq(a: &[u8], b: &[u8]) -> (r: bool)
    ensures
        r == (a@ == b@),
{
    if a.len() != b.len() {
        return false;
    }
    let mut diff: u8 = 0;
    let mut i: usize = 0;
    assert(a@.take(0) =~= b@.take(0));
    while i < a.len()
        invariant
            i <= a@.len(),
            a@.len() == b@.len(),
            diff == 0 <==> a@.take(i as int) == b@.take(i as int),
        decreases a@.len() - i,
    {
        let x: u8 = a[i];
        let y: u8 = b[i];
        let ghost before = diff;
        diff = diff | (x ^ y);
        proof {
            assert((before | (x ^ y)) == 0 <==> before == 0 && x == y) by (bit_vector);
            let p = a@.take(i + 1);
            let q = b@.take(i + 1);
            assert(p =~= a@.take(i as int).push(x));
            assert(q =~= b@.take(i as int).push(y));
            if p == q {
                assert(p.drop_last() =~= a@.take(i as int));
                assert(q.drop_last() =~= b@.take(i as int));
                assert(p.last() == x && q.last() == y);
            }
        }
        i = i + 1;
    }
    assert(a@.take(i as int) =~= a@);
    assert(b@.take(i as int) =~= b@);
    diff == 0
}

/// Whether a token opens the control channel. Where the configured token is missing or
/// empty everyone is let in.
pub open spec fn opens(configured: Option<String>, shown: Seq<char>) -> bool {
    configured is Some && configured->0@.len() > 0 ==> configured->0@ == shown
}

/// Whether a token opens the control channel.
pub fn authorized(configured: &Option<String>, shown: &str) -> (r: bool)
    ensures
        r == opens(*configured, shown@),
{
    match configured {
        Some(t) => {
            if t.as_str().unicode_len() == 0 {
                return true;
            }
            let eq = constant_time_eq(t.as_str().as_bytes(), shown.as_bytes());
            proof {
                if encode_utf8(t@) == encode_utf8(shown@) {
                    encode_utf8_decode_utf8(t@);
                    encode_utf8_decode_utf8(shown@);
                }
            }
            eq
        },
        None => true,
    }
}

/// The token to send with a command: none where it is empty.
pub fn token_to_send(configured: Option<&str>) -> (r: Option<String>)
    ensures
        match r {
            Some(t) => configured is Some && t@ == configured->0@ && t@.len() > 0,
            None => configured is None || configured->0@.len() == 0,
        },
{
    match configured {
        Some(t) => {
            if t.unicode_len() == 0 {
                None
            } else {
                Some(t.to_owned())
            }
        },
        None => None,
    }
}

/// What a reply to a command comes to: nothing where it went well, otherwise why it did
/// not.
pub fn reply_result(ok: Option<bool>, error: Option<&str>) -> (r: Result<(), String>)
    ensures
        r is Ok <==> ok == Some(true),
        r matches Err(e) ==> e@ == (match error {
            Some(t) => t@,
            None => "未知错误"@,
        }),
{
    if let Some(b) = ok {
        if b {
            return Ok(());
        }
    }
    match error {
        Some(t) => Err(t.to_owned()),
        None => Err("未知错误".to_owned()),
    }
}

/// With a token that is not empty just those who show it are let in; without one everyone
/// is.
pub proof fn the_token_opens_the_channel(token: String, shown: Seq<char>)
    ensures
        opens(None, shown),
        token@.len() == 0 ==> opens(Some(token), shown),
        token@.len() > 0 ==> (opens(Some(token), shown) <==> shown == token@),
{
}

} // verus!
