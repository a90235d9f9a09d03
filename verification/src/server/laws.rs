//! What the parts of the server promise together: how one request bears on the next.
//!
//! The laws speak of what is stored and what is answered, and of plain numbers.
use vstd::prelude::*;
use vstd::string::*;
use vstd::utf8::*;
use crate::alias::{canonical, is_alias};
use crate::cert::{lists, DeviceCert};
use crate::outside::{base64_chars, base64_decoded};
use crate::protocol::{opt_view, AuthBody, AuthRespBody, JoinBody, QueryBody, RegisterBody};
use crate::client::peer::total_len;
use crate::client::reliable::packets_view;
use crate::net::IpAddress;
use crate::server::config::{room_added, room_error, token_digest, RoomEntry};
use crate::server::guard::{counted_once, exceeds, remembered, RateLimiter};
use crate::server::join::{
    join_addressed, join_answer, join_granted, join_invited, join_refused, join_wish, own_name,
    room_lookup, room_of_token, JoinGrant,
};
use crate::server::mesh::{
    allocation, any_invite, cert_outcome, code_digest, first_free, invite_answer, invite_at,
    invite_error, invite_made, marked_used, set_aside, taken, used_up, InviteEntry, MeshConfig,
};
use crate::server::relay::{forwarded, frame_batched, source_refreshed, PendingBatch, RelayBatcher};
use crate::server::routes::{
    dropped, entry_of, expired_keys, first_named, named_address, upserted, RouteEntry, RouteTable,
};
use crate::server::sessions::{
    advanced, device_sessions, idle_sessions, is_oldest, keys_of, made_room, registered,
    SessionEntry,
};
use crate::server::signaling::{
    auth_checked, auth_nonce, cleaned_up, join_handled, device_revoked, is_registration,
    query_address, query_target, request_answered, resolved_name, session_opened, AuthStep,
    JoinOutcome, SessionReply, SessionRequest, Signaling,
};
use crate::table::RawKey;
use crate::text::trimmed;

verus! {

/// Whether an address is free: no member holds it, and no open invitation but the one at
/// `own` has it set aside.
pub open spec fn is_free(mesh: MeshConfig, own: int, ip: Seq<char>) -> bool {
    &&& forall|m: int|
        0 <= m < mesh.members@.len() ==> (#[trigger] mesh.members@[m]).cert.allowed_ip@ != ip
    &&& forall|j: int|
        0 <= j < mesh.invites@.len() && j != own && !(#[trigger] mesh.invites@[j]).used
            && mesh.invites@[j].ip is Some ==> mesh.invites@[j].ip->0@ != ip
}

proof fn lemma_free(mesh: MeshConfig, own: int, ip: Seq<char>)
    ensures
        taken(&mesh, own, ip) == !is_free(mesh, own, ip),
{
    if is_free(mesh, own, ip) {
        assert(!taken(&mesh, own, ip));
    } else if exists|m: int|
        0 <= m < mesh.members@.len() && (#[trigger] mesh.members@[m]).cert.allowed_ip@ == ip {
        assert(taken(&mesh, own, ip));
    } else {
        let j = choose|j: int|
            0 <= j < mesh.invites@.len() && j != own && !(#[trigger] mesh.invites@[j]).used
                && mesh.invites@[j].ip is Some && mesh.invites@[j].ip->0@ == ip;
        assert(set_aside(mesh.invites@, own, ip));
    }
}

/// Whether a token opens a room: there are none, or one of them has it.
pub open spec fn opens_a_room(rooms: Seq<RoomEntry>, token: Option<Seq<char>>) -> bool {
    rooms.len() == 0 || token is Some && trimmed(token->0).len() > 0 && exists|k: int|
        0 <= k < rooms.len() && (#[trigger] rooms[k]).token_hash@ == token_digest(token->0)
}

/// Whether a room is the one that a token opens: the only one there is without rooms, else
/// the first that has the token.
pub open spec fn is_room_of(rooms: Seq<RoomEntry>, token: Option<Seq<char>>, room: Seq<char>) -> bool {
    if rooms.len() == 0 {
        room == "default"@
    } else {
        token is Some && exists|k: int|
            {
                &&& 0 <= k < rooms.len()
                &&& (#[trigger] rooms[k]).token_hash@ == token_digest(token->0)
                &&& rooms[k].name@ == room
                &&& forall|j: int|
                    0 <= j < k ==> (#[trigger] rooms[j]).token_hash@ != token_digest(token->0)
            }
    }
}

proof fn lemma_lookup(rooms: Seq<RoomEntry>, hash: Seq<char>)
    ensures
        match room_lookup(rooms, hash) {
            Some(name) => exists|k: int|
                {
                    &&& 0 <= k < rooms.len()
                    &&& (#[trigger] rooms[k]).token_hash@ == hash
                    &&& rooms[k].name@ == name
                    &&& forall|j: int| 0 <= j < k ==> (#[trigger] rooms[j]).token_hash@ != hash
                },
            None => forall|k: int|
                0 <= k < rooms.len() ==> (#[trigger] rooms[k]).token_hash@ != hash,
        },
    decreases rooms.len(),
{
    if rooms.len() > 0 {
        let rest = rooms.skip(1);
        if rooms[0].token_hash@ != hash {
            lemma_lookup(rest, hash);
            match room_lookup(rest, hash) {
                Some(name) => {
                    let k = choose|k: int|
                        {
                            &&& 0 <= k < rest.len()
                            &&& (#[trigger] rest[k]).token_hash@ == hash
                            &&& rest[k].name@ == name
                            &&& forall|j: int|
                                0 <= j < k ==> (#[trigger] rest[j]).token_hash@ != hash
                        };
                    assert forall|j: int| 0 <= j < k + 1 implies (#[trigger] rooms[j]).token_hash@
                        != hash by {
                        if j > 0 {
                            assert(rest[j - 1] == rooms[j]);
                        }
                    }
                    assert(rooms[k + 1].token_hash@ == hash);
                },
                None => {
                    assert forall|k: int| 0 <= k < rooms.len() implies (
                    #[trigger] rooms[k]).token_hash@ != hash by {
                        if k > 0 {
                            assert(rest[k - 1] == rooms[k]);
                        }
                    }
                },
            }
        }
    }
}

/// With a token that one of the rooms has, a device gets into that room; with any other,
/// or none where there are rooms, it gets into none.
pub proof fn a_token_opens_its_room(rooms: Seq<RoomEntry>, token: Option<Seq<char>>)
    ensures
        match room_of_token(rooms, token) {
            Ok(room) => opens_a_room(rooms, token) && is_room_of(rooms, token, room),
            Err(_) => !opens_a_room(rooms, token),
        },
{
    if rooms.len() > 0 && token is Some {
        lemma_lookup(rooms, token_digest(token->0));
    }
}

/// Whether a certificate may be made out for a device: it is neither a member nor revoked,
/// the mesh can sign, and there is an address for it.
pub open spec fn may_be_certified(
    mesh: MeshConfig,
    own: int,
    device_id: Seq<char>,
    wished: Seq<char>,
) -> bool {
    &&& forall|m: int|
        0 <= m < mesh.members@.len() ==> (#[trigger] mesh.members@[m]).device_id@ != device_id
    &&& forall|m: int|
        0 <= m < mesh.crl.entries@.len() ==> (#[trigger] mesh.crl.entries@[m]).device_id@
            != device_id
    &&& mesh.seed() is Ok
    &&& wished.len() > 0 && is_free(mesh, own, wished) || exists|p: int|
        0 <= p < mesh.ip_pool@.len() && is_free(mesh, own, #[trigger] mesh.ip_pool@[p]@)
}

/// Whether a certificate is as it should be: for the device and its keys, with an address
/// that was free, the one wished for where that is free, and good from now on for a year of
/// 365 days, and no longer.
pub open spec fn is_certified_right(
    mesh: MeshConfig,
    own: int,
    device_id: Seq<char>,
    ik_x: Seq<char>,
    ik_s_pub: Seq<char>,
    wished: Seq<char>,
    now: u64,
    r: Result<DeviceCert, String>,
) -> bool {
    let cert = r->Ok_0;
    &&& r is Ok
    &&& cert.device_id@ == device_id && cert.ik_x@ == ik_x && cert.ik_s_pub@ == ik_s_pub
    &&& cert.mesh_id@ == mesh.mesh_id@ && cert.serial == mesh.members@.len() + 1
    &&& is_free(mesh, own, cert.allowed_ip@)
    &&& wished.len() > 0 && is_free(mesh, own, wished) ==> cert.allowed_ip@ == wished
    &&& forall|t: u64|
        (now <= t <= now + 365 * 24 * 3600) == #[trigger] cert.covers(t)
}

/// Where a certificate may be made out, it is, and as it should be.
pub proof fn certificates_are_made_out_right(
    mesh: MeshConfig,
    own: int,
    device_id: Seq<char>,
    ik_x: Seq<char>,
    ik_s_pub: Seq<char>,
    wished: Seq<char>,
    now: u64,
    r: Result<DeviceCert, String>,
)
    requires
        may_be_certified(mesh, own, device_id, wished),
        cert_outcome(&mesh, own, device_id, ik_x, ik_s_pub, wished, now, r),
    ensures
        is_certified_right(mesh, own, device_id, ik_x, ik_s_pub, wished, now, r),
{
    lemma_free(mesh, own, wished);
    if exists|p: int|
        0 <= p < mesh.ip_pool@.len() && is_free(mesh, own, #[trigger] mesh.ip_pool@[p]@) {
        let p = choose|p: int|
            0 <= p < mesh.ip_pool@.len() && is_free(mesh, own, #[trigger] mesh.ip_pool@[p]@);
        lemma_free(mesh, own, mesh.ip_pool@[p]@);
    }
    if r is Ok {
        lemma_free(mesh, own, r->Ok_0.allowed_ip@);
    }
}

/// Whether a request to join is in order, with the invitation at `i`.
pub open spec fn may_join(
    mesh: MeshConfig,
    rooms: Seq<RoomEntry>,
    jb: JoinBody,
    expected_id: Result<String, String>,
    i: int,
    now: u64,
) -> bool {
    let hash = code_digest(jb.code@);
    &&& opens_a_room(rooms, opt_view(jb.token))
    &&& 0 <= i < mesh.invites@.len()
    &&& mesh.invites@[i].code_hash@ == hash
    &&& !mesh.invites@[i].used
    &&& now <= mesh.invites@[i].expires_at
    &&& forall|j: int|
        0 <= j < mesh.invites@.len() && j != i ==> (#[trigger] mesh.invites@[j]).code_hash@ != hash
    &&& expected_id is Ok && expected_id->Ok_0@ == jb.device_id@
    &&& forall|m: int|
        0 <= m < mesh.members@.len() ==> (#[trigger] mesh.members@[m]).device_id@ != jb.device_id@
    &&& forall|m: int|
        0 <= m < mesh.crl.entries@.len() ==> (#[trigger] mesh.crl.entries@[m]).device_id@
            != jb.device_id@
    &&& mesh.seed() is Ok
    &&& jb.alias is None || trimmed(jb.alias->0@).len() == 0 || is_alias(canonical(jb.alias->0@))
    &&& forall|p: int|
        0 <= p < mesh.ip_pool@.len() ==> (#[trigger] mesh.ip_pool@[p])@.len() > 0 && trimmed(
            mesh.ip_pool@[p]@,
        ) == mesh.ip_pool@[p]@
    &&& exists|p: int| 0 <= p < mesh.ip_pool@.len() && is_free(mesh, i, #[trigger] mesh.ip_pool@[p]@)
}

/// Whether a request to join was granted as it should be: with an address that was free,
/// the one promised or asked for where that is free, and a certificate in the device's own
/// name, for its own keys and that address, which holds from now on for a year of 365 days.
/// The device is a member then, all others stay, and its code is spent for good.
pub open spec fn is_let_in(
    before: MeshConfig,
    jb: JoinBody,
    i: int,
    now: u64,
    r: Result<JoinGrant, String>,
    after: MeshConfig,
) -> bool {
    &&& r is Ok
    &&& ({
        let cert = r->Ok_0.cert;
        let ip = r->Ok_0.allocated_ip@;
        &&& forall|t: u64|
            now <= t <= now + 365 * 24 * 3600 ==> #[trigger] cert.covers(t) && cert.valid_from
                <= t <= cert.not_after
        &&& !cert.covers((now + 365 * 24 * 3600 + 1) as u64) || now + 365 * 24 * 3600 + 1
            > u64::MAX
        &&& cert.device_id@ == jb.device_id@
        &&& cert.ik_x@ == jb.ik_x@
        &&& cert.ik_s_pub@ == jb.ik_s_pub@
        &&& cert.mesh_id@ == before.mesh_id@
        &&& cert.allowed_ip@ == ip
        &&& is_free(before, i, ip)
        &&& promised(before.invites@[i]).len() > 0 && is_free(
            before,
            i,
            promised(before.invites@[i]),
        ) ==> ip == promised(before.invites@[i])
        &&& before.invites@[i].ip is None && jb.requested_ip is Some && trimmed(
            jb.requested_ip->0@,
        ).len() > 0 && is_free(before, i, trimmed(jb.requested_ip->0@)) ==> ip == trimmed(
            jb.requested_ip->0@,
        )
        &&& after.members@.len() == before.members@.len() + 1
        &&& forall|m: int|
            0 <= m < before.members@.len() ==> #[trigger] after.members@[m]
                == before.members@[m]
        &&& after.members@.last().device_id@ == jb.device_id@
        &&& after.members@.last().cert == cert
        &&& after.members@.last().joined_at == now
        &&& jb.alias is Some && trimmed(jb.alias->0@).len() > 0 ==> after.members@.last().alias
            is Some && after.members@.last().alias->0@ == canonical(jb.alias->0@)
        &&& jb.alias is None ==> after.members@.last().alias is None
        &&& cert.serial == before.members@.len() + 1
    })
    &&& forall|later: u64, again: Result<Option<String>, String>|
        #[trigger] invite_answer(after.invites@, code_digest(jb.code@), later, again)
            ==> again is Err
}

/// A device whose request is in order joins. It gets an address that was free, the one it
/// was promised or asked for where that is free, and a certificate in its own name, for its
/// own keys and that address, which holds from now on for a year of 365 days. It is a
/// member then, all others stay, and its code is spent for good.
pub proof fn a_device_with_an_invitation_joins(
    before: MeshConfig,
    rooms: Seq<RoomEntry>,
    jb: JoinBody,
    expected_id: Result<String, String>,
    i: int,
    now: u64,
    r: Result<JoinGrant, String>,
    after: MeshConfig,
)
    requires
        may_join(before, rooms, jb, expected_id, i, now),
        join_answer(before, rooms, jb, expected_id, now, r, after),
        now + 365 * 24 * 3600 <= u64::MAX,
    ensures
        is_let_in(before, jb, i, now, r, after),
{
    let hash = code_digest(jb.code@);
    a_token_opens_its_room(rooms, opt_view(jb.token));
    assert(any_invite(before.invites@, hash));
    let at = choose|at: int|
        {
            &&& #[trigger] invite_at(before.invites@, hash, at)
            &&& match invite_error(before.invites@[at], now) {
                Some(e) => join_refused(before, r, after, "加入失败: "@ + e),
                None => join_invited(before, at, jb, expected_id, now, r, after),
            }
        };
    assert(at == i);
    let p = choose|p: int|
        0 <= p < before.ip_pool@.len() && is_free(before, i, #[trigger] before.ip_pool@[p]@);
    lemma_free(before, i, before.ip_pool@[p]@);
    let wish = join_wish(before.invites@[i], jb);
    lemma_free(before, i, wish);
    let got = choose|got: Result<Seq<char>, Seq<char>>|
        {
            &&& #[trigger] allocation(&before, i, wish, got)
            &&& match got {
                Err(e) => join_refused(before, r, after, e),
                Ok(ip) => join_addressed(before, i, jb, ip, now, r, after),
            }
        };
    assert(got is Ok);
    let ip = got->Ok_0;
    lemma_free(before, i, ip);
    lemma_wish(before.invites@[i], jb);
    assert(ip.len() > 0 && trimmed(ip) == ip && is_free(before, i, ip)) by {
        if !(wish.len() > 0 && !taken(&before, i, wish)) {
            let k = choose|k: int| #[trigger] first_free(&before, i, k) && ip == before.ip_pool@[k]@;
            assert(before.ip_pool@[k]@.len() > 0);
        }
    }
    let c = choose|c: Result<DeviceCert, String>|
        {
            &&& #[trigger] cert_outcome(
                &before,
                i,
                jb.device_id@,
                jb.ik_x@,
                jb.ik_s_pub@,
                trimmed(ip),
                now,
                c,
            )
            &&& match c {
                Err(e) => join_refused(before, r, after, "签发证书失败: "@ + e@),
                Ok(cert) => join_granted(before, i, jb, ip, cert, now, r, after),
            }
        };
    assert(c is Ok);
    assert(own_name(opt_view(jb.alias)) is Ok);
    assert forall|m: int| 0 <= m < before.members@.len() implies #[trigger] after.members@[m]
        == before.members@[m] by {
        assert(after.members@.drop_last()[m] == after.members@[m]);
    }
    lemma_spent_for_good(before.invites@, hash, i, now, after.invites@);
}

/// No certificate is made out for a device that has one or was revoked, by a mesh whose root
/// cannot sign, or where no address is free.
pub proof fn only_new_devices_are_certified(
    mesh: MeshConfig,
    own: int,
    device_id: Seq<char>,
    ik_x: Seq<char>,
    ik_s_pub: Seq<char>,
    wished: Seq<char>,
    now: u64,
    r: Result<DeviceCert, String>,
)
    requires
        cert_outcome(&mesh, own, device_id, ik_x, ik_s_pub, wished, now, r),
    ensures
        r is Ok ==> may_be_certified(mesh, own, device_id, wished),
{
    if r is Ok {
        lemma_free(mesh, own, wished);
        if wished.len() == 0 || !is_free(mesh, own, wished) {
            let k = choose|k: int|
                #[trigger] first_free(&mesh, own, k) && r->Ok_0.allowed_ip@ == mesh.ip_pool@[k]@;
            lemma_free(mesh, own, mesh.ip_pool@[k]@);
        }
    }
}

/// Whether a device may have been let in on an invitation: its token opens a room, the
/// invitation is good and carries the code that it gave, the name it gave is the one that
/// follows from its keys, and it is neither revoked nor a member.
pub open spec fn was_invited(
    mesh: MeshConfig,
    rooms: Seq<RoomEntry>,
    jb: JoinBody,
    expected_id: Result<String, String>,
    i: int,
    now: u64,
) -> bool {
    &&& opens_a_room(rooms, opt_view(jb.token))
    &&& 0 <= i < mesh.invites@.len()
    &&& mesh.invites@[i].code_hash@ == code_digest(jb.code@)
    &&& !mesh.invites@[i].used
    &&& now <= mesh.invites@[i].expires_at
    &&& expected_id is Ok && expected_id->Ok_0@ == jb.device_id@
    &&& forall|m: int|
        0 <= m < mesh.crl.entries@.len() ==> (#[trigger] mesh.crl.entries@[m]).device_id@
            != jb.device_id@
    &&& forall|m: int|
        0 <= m < mesh.members@.len() ==> (#[trigger] mesh.members@[m]).device_id@ != jb.device_id@
    &&& jb.alias is None || trimmed(jb.alias->0@).len() == 0 || is_alias(canonical(jb.alias->0@))
}

/// Nobody joins a mesh without a good invitation, a token for a room where there are any, and
/// a name that follows from the keys; nor does a member, or a device that was revoked. Who is
/// refused leaves the mesh as it was.
pub proof fn only_the_invited_join(
    before: MeshConfig,
    rooms: Seq<RoomEntry>,
    jb: JoinBody,
    expected_id: Result<String, String>,
    now: u64,
    r: Result<JoinGrant, String>,
    after: MeshConfig,
)
    requires
        join_answer(before, rooms, jb, expected_id, now, r, after),
    ensures
        r is Ok ==> exists|i: int| #[trigger] was_invited(before, rooms, jb, expected_id, i, now),
        r is Err ==> after == before,
{
    let hash = code_digest(jb.code@);
    a_token_opens_its_room(rooms, opt_view(jb.token));
    if room_of_token(rooms, opt_view(jb.token)) is Ok && any_invite(before.invites@, hash) {
        let at = choose|at: int|
            {
                &&& #[trigger] invite_at(before.invites@, hash, at)
                &&& match invite_error(before.invites@[at], now) {
                    Some(e) => join_refused(before, r, after, "加入失败: "@ + e),
                    None => join_invited(before, at, jb, expected_id, now, r, after),
                }
            };
        if r is Ok {
            assert(was_invited(before, rooms, jb, expected_id, at, now));
        }
    }
}

/// The address that an invitation promises, if any.
pub open spec fn promised(e: InviteEntry) -> Seq<char> {
    match e.ip {
        Some(ip) => trimmed(ip@),
        None => Seq::empty(),
    }
}

proof fn lemma_wish(e: InviteEntry, jb: JoinBody)
    ensures
        trimmed(join_wish(e, jb)) == join_wish(e, jb),
{
    if e.ip is Some {
        crate::text::lemma_trimmed_twice(e.ip->0@);
    } else if jb.requested_ip is Some {
        crate::text::lemma_trimmed_twice(jb.requested_ip->0@);
    }
}

proof fn lemma_spent_for_good(
    before: Seq<InviteEntry>,
    hash: Seq<char>,
    i: int,
    now: u64,
    after: Seq<InviteEntry>,
)
    requires
        0 <= i < before.len(),
        forall|j: int| 0 <= j < before.len() && j != i ==> (#[trigger] before[j]).code_hash@ != hash,
        after == used_up(before, i, now),
    ensures
        forall|later: u64, again: Result<Option<String>, String>|
            #[trigger] invite_answer(after, hash, later, again) ==> again is Err,
{
    let m = marked_used(before, i);
    crate::seqs::lemma_filter_members(m, crate::server::mesh::in_time(now));
    assert forall|later: u64, again: Result<Option<String>, String>|
        #[trigger] invite_answer(after, hash, later, again) implies again is Err by {
        if again is Ok {
            let k = choose|k: int|
                {
                    &&& #[trigger] invite_at(after, hash, k)
                    &&& invite_error(after[k], later) is None
                    &&& again->Ok_0 == after[k].ip
                };
            assert(m.contains(after[k]));
            let j = choose|j: int| 0 <= j < m.len() && m[j] == after[k];
            if j != i {
                assert(m[j] == before[j]);
            }
        }
    }
}

/// Whether a new invitation is good until its time is up, and no other has gone for it.
pub open spec fn is_good_for_its_time(
    before: MeshConfig,
    ip: Option<&str>,
    ttl_secs: u64,
    made: u64,
    after: MeshConfig,
    now: u64,
    r: Result<Option<String>, String>,
) -> bool {
    &&& (r is Ok <==> now <= made + ttl_secs)
    &&& (r is Ok ==> match ip {
        Some(a) => if a@.len() > 0 {
            r->Ok_0 is Some && r->Ok_0->0@ == a@
        } else {
            r->Ok_0 is None
        },
        None => r->Ok_0 is None,
    })
    &&& (forall|j: int|
        0 <= j < before.invites@.len() && !(#[trigger] before.invites@[j]).used
            && before.invites@[j].expires_at > made ==> after.invites@.contains(
            before.invites@[j],
        ))
    &&& (after.members == before.members && after.crl == before.crl)
}

/// An invitation that was just made out is there, open, under its own code and no other,
/// until its time is up. Any other that was open then still is.
pub proof fn a_new_invitation_is_good(
    before: MeshConfig,
    ip: Option<&str>,
    ttl_secs: u64,
    made: u64,
    code: Seq<char>,
    after: MeshConfig,
    now: u64,
    r: Result<Option<String>, String>,
)
    requires
        invite_made(before, ip, ttl_secs, made, code, after),
        ttl_secs > 0,
        made + ttl_secs <= u64::MAX,
        forall|j: int|
            0 <= j < before.invites@.len() ==> (#[trigger] before.invites@[j]).code_hash@
                != code_digest(code),
        invite_answer(after.invites@, code_digest(code), now, r),
    ensures
        is_good_for_its_time(before, ip, ttl_secs, made, after, now, r),
{
    let hash = code_digest(code);
    let all = after.invites@;
    let kept = before.invites@.filter(crate::server::mesh::still_open(made));
    crate::seqs::lemma_filter_members(before.invites@, crate::server::mesh::still_open(made));
    let n = all.len() - 1;
    assert(all[n].code_hash@ == hash);
    assert forall|k: int| invite_at(all, hash, k) implies k == n by {
        if k < n {
            assert(all.drop_last()[k] == all[k]);
            assert(before.invites@.contains(kept[k]));
            let j = choose|j: int| 0 <= j < before.invites@.len() && before.invites@[j] == kept[k];
            assert(before.invites@[j].code_hash@ != hash);
        }
        if k > n {
            assert(false);
        }
    }
    assert forall|j: int|
        0 <= j < before.invites@.len() && !(#[trigger] before.invites@[j]).used
            && before.invites@[j].expires_at > made implies all.contains(before.invites@[j]) by {
        assert(kept.contains(before.invites@[j]));
        let k = choose|k: int| 0 <= k < kept.len() && kept[k] == before.invites@[j];
        assert(all.drop_last()[k] == all[k]);
    }
    if now <= made + ttl_secs {
        assert(r is Ok) by {
            if r is Err {
                let k = choose|k: int|
                    #[trigger] invite_at(all, hash, k) && invite_error(all[k], now) == Some(
                        r->Err_0@,
                    );
                assert(k == n);
            }
        }
    }
}

/// Whether a device is registered with an address.
pub open spec fn is_registered(s: Signaling, device: RawKey) -> bool {
    s.routes.entries().dom().contains(device) && s.routes.entries()[device].ip@.len() > 0
}

/// Whether a heartbeat of a registered device was taken in: it is answered with yes, and
/// the device's entry shows that it was heard now and from where, and is as before else.
pub open spec fn is_heard(
    before: Signaling,
    session: RawKey,
    src: Seq<char>,
    now: u64,
    reply: SessionReply,
    after: Signaling,
) -> bool {
    let device = before.sessions@[session].ik_x;
    let old = before.routes.entries()[device];
    let new = after.routes.entries()[device];
    &&& reply.answer is Reply && reply.answer->Reply_0.ok
    &&& after.routes.entries().dom().contains(device)
    &&& new.last_seen == now
    &&& new.endpoint@ == src
    &&& new.ip == old.ip && new.relay_rk == old.relay_rk && new.alias == old.alias
    &&& new.room@ == before.sessions@[session].room@
    &&& after.routes.at_ip(old.ip@) == Some(new)
    &&& forall|k: RawKey|
        k != device ==> #[trigger] entry_of(after.routes.entries(), k) == entry_of(
            before.routes.entries(),
            k,
        )
    &&& after.sessions == before.sessions
}

/// A heartbeat of a registered device is taken in.
pub proof fn a_heartbeat_is_heard(
    before: Signaling,
    session: RawKey,
    src: Seq<char>,
    now: u64,
    reply: SessionReply,
    after: Signaling,
)
    requires
        before.wf(),
        before.sessions@.dom().contains(session),
        is_registered(before, before.sessions@[session].ik_x),
        request_answered(before, session, SessionRequest::Heartbeat, src, now, reply, after),
    ensures
        is_heard(before, session, src, now, reply, after),
{
    let device = before.sessions@[session].ik_x;
    let old = before.routes.entries()[device];
    before.routes.the_indices_agree();
    let e = choose|e: RouteEntry|
        {
            &&& e.public_key == device
            &&& e.ip == old.ip
            &&& e.endpoint@ == src
            &&& e.last_seen == now
            &&& e.relay_rk == old.relay_rk
            &&& e.room == before.sessions@[session].room
            &&& e.alias == old.alias
            &&& #[trigger] upserted(before.routes, e, after.routes)
        };
    assert(after.routes.entries()[device] == e);
}

/// A device that sends heartbeats stays registered and found: after one at `now`, a
/// cleanup at any time up to the end of the time to live keeps it, and a query for its
/// address from its room is answered with its key and the place that the heartbeat came
/// from. No session of it may be idle for longer than that either.
pub proof fn a_heartbeat_keeps_a_device_found(
    s0: Signaling,
    session: RawKey,
    src: Seq<char>,
    now: u64,
    reply: SessionReply,
    s1: Signaling,
    then: u64,
    ended: usize,
    s2: Signaling,
    asker: RawKey,
    qb: QueryBody,
    asker_src: Seq<char>,
    answer: SessionReply,
    s3: Signaling,
)
    requires
        s0.wf() && s1.wf() && s2.wf(),
        s0.sessions@.dom().contains(session),
        is_registered(s0, s0.sessions@[session].ik_x),
        request_answered(s0, session, SessionRequest::Heartbeat, src, now, reply, s1),
        then <= now + s0.route_ttl_sec,
        forall|k: RawKey|
            s1.sessions@.dom().contains(k) && (#[trigger] s1.sessions@[k]).ik_x
                == s0.sessions@[session].ik_x ==> then <= s1.sessions@[k].last_seen
                + s0.route_ttl_sec,
        cleaned_up(s1, then, ended, s2),
        s2.sessions@.dom().contains(asker),
        s2.sessions@[asker].room@ == s0.sessions@[session].room@,
        qb.name is None,
        qb.ip@ == s0.routes.entries()[s0.sessions@[session].ik_x].ip@,
        request_answered(s2, asker, SessionRequest::Query(qb), asker_src, then, answer, s3),
    ensures
        reply.answer is Reply && reply.answer->Reply_0.ok,
        ({
            let device = s0.sessions@[session].ik_x;
            let entry = s2.routes.entries()[device];
            let b = answer.answer->Reply_0;
            &&& s2.routes.entries().dom().contains(device)
            &&& entry.last_seen == now
            &&& entry.endpoint@ == src
            &&& entry.relay_rk == s0.routes.entries()[device].relay_rk
            &&& entry.alias == s0.routes.entries()[device].alias
            &&& answer.answer is Reply && b.ok && b.data is QueryHit
            &&& b.data->QueryHit_public_key@ == base64_chars(device@)
            &&& b.data->QueryHit_endpoint@ == src
            &&& b.data->QueryHit_ip@ == qb.ip@
        }),
{
    let device = s0.sessions@[session].ik_x;
    let old = s0.routes.entries()[device];
    let ip = old.ip@;
    s0.routes.the_indices_agree();
    s1.routes.the_indices_agree();
    let e = choose|e: RouteEntry|
        {
            &&& e.public_key == device
            &&& e.ip == old.ip
            &&& e.endpoint@ == src
            &&& e.last_seen == now
            &&& e.relay_rk == old.relay_rk
            &&& e.room == s0.sessions@[session].room
            &&& e.alias == old.alias
            &&& #[trigger] upserted(s0.routes, e, s1.routes)
        };
    assert(s1.routes.entries()[device] == e);
    assert(s1.routes.addresses()[ip] == device);
    let idle = idle_sessions(s1.sessions@, then, s1.route_ttl_sec);
    let stale = expired_keys(s1.routes.entries(), then, s1.route_ttl_sec);
    let quiet = keys_of(s1.sessions@, idle);
    assert(!stale.contains(device));
    assert(!quiet.contains(device)) by {
        if quiet.contains(device) {
            let k = choose|k: RawKey|
                idle.contains(k) && (#[trigger] s1.sessions@[k]).ik_x == device;
            assert(s1.sessions@.dom().contains(k));
        }
    }
    let mid = choose|mid: RouteTable|
        #[trigger] dropped(s1.routes, stale, mid) && dropped(mid, quiet, s2.routes);
    assert(mid.entries()[device] == e && mid.addresses()[ip] == device);
    assert(s2.routes.entries()[device] == e && s2.routes.addresses()[ip] == device);
    assert(s2.routes.at_ip(ip) == Some(e));
    assert(query_target(s2, qb, s2.sessions@[asker].room@) == Some(e));
}

/// Whether a cleanup has forgotten a device and a session just where they were silent for
/// longer than the time to live.
pub open spec fn forgets_the_silent(
    before: Signaling,
    now: u64,
    after: Signaling,
    device: RawKey,
    session: RawKey,
) -> bool {
    &&& (before.routes.entries().dom().contains(device) && before.routes.entries()[device].last_seen
        + before.route_ttl_sec < now ==> !after.routes.entries().dom().contains(device))
    &&& (before.sessions@.dom().contains(session) && before.sessions@[session].last_seen
        + before.route_ttl_sec < now ==> !after.sessions@.dom().contains(session)
        && !after.routes.entries().dom().contains(before.sessions@[session].ik_x))
    &&& (before.sessions@.dom().contains(session) && before.sessions@[session].last_seen
        + before.route_ttl_sec >= now ==> after.sessions@.dom().contains(session)
        && after.sessions@[session] == before.sessions@[session])
    &&& after.mesh == before.mesh && after.rooms == before.rooms && after.aliases == before.aliases
    &&& (before.routes.entries().dom().contains(device) && before.routes.entries()[device].last_seen
        + before.route_ttl_sec >= now && (forall|k: RawKey|
        before.sessions@.dom().contains(k) && (#[trigger] before.sessions@[k]).ik_x == device
            ==> before.sessions@[k].last_seen + before.route_ttl_sec >= now)
        ==> after.routes.entries().dom().contains(device) && after.routes.entries()[device]
        == before.routes.entries()[device])
}

/// A device that was not heard of for longer than the time to live is forgotten by the
/// next cleanup, its session as well as its route, and only such devices are.
pub proof fn silent_devices_are_forgotten(
    before: Signaling,
    now: u64,
    ended: usize,
    after: Signaling,
    device: RawKey,
    session: RawKey,
)
    requires
        cleaned_up(before, now, ended, after),
    ensures
        forgets_the_silent(before, now, after, device, session),
{
    let idle = idle_sessions(before.sessions@, now, before.route_ttl_sec);
    let stale = expired_keys(before.routes.entries(), now, before.route_ttl_sec);
    let quiet = keys_of(before.sessions@, idle);
    let mid = choose|mid: RouteTable|
        #[trigger] dropped(before.routes, stale, mid) && dropped(mid, quiet, after.routes);
    if before.sessions@.dom().contains(session) && before.sessions@[session].last_seen
        + before.route_ttl_sec < now {
        assert(idle.contains(session));
        assert(quiet.contains(before.sessions@[session].ik_x));
    }
    if quiet.contains(device) {
        let k = choose|k: RawKey|
            idle.contains(k) && (#[trigger] before.sessions@[k]).ik_x == device;
        assert(before.sessions@.dom().contains(k));
    }
}

/// Whether an address may ask once more: there is no limit, it has not asked within the
/// last minute, or not as often as is allowed.
pub open spec fn may_ask(s: Signaling, ip: IpAddress, now: u64) -> bool {
    ||| s.limiter.allowed() == 0
    ||| !s.limiter.counts().dom().contains(ip)
    ||| s.limiter.counts()[ip].0 + 60 <= now
    ||| s.limiter.counts()[ip].1 < s.limiter.allowed()
}

/// Whether a request for a session is in order, but for its nonce being new.
pub open spec fn auth_in_order(
    s: Signaling,
    ab: AuthBody,
    cert_check: Result<(), String>,
    now: u64,
) -> bool {
    &&& opens_a_room(s.rooms@, opt_view(ab.token))
    &&& cert_check is Ok
    &&& ab.device_id@ == ab.cert.device_id@
    &&& forall|m: int|
        0 <= m < s.mesh.crl.entries@.len() ==> (#[trigger] s.mesh.crl.entries@[m]).device_id@
            != ab.device_id@
    &&& ab.timestamp <= now + 30 && now <= ab.timestamp + 30
    &&& base64_decoded(trimmed(ab.nonce@)) is Ok
    &&& base64_decoded(trimmed(ab.nonce@))->Ok_0.len() == 12
}

/// Whether a request for a session was judged as it should be: it goes on exactly where it
/// is in order and its nonce is new, with that nonce and into the room of its token.
pub open spec fn auth_judged_right(
    s: Signaling,
    sender: RawKey,
    ab: AuthBody,
    cert_check: Result<(), String>,
    now: u64,
    r: AuthStep,
) -> bool {
    let nonce = base64_decoded(trimmed(ab.nonce@))->Ok_0;
    &&& (r is Proceed <==> auth_in_order(s, ab, cert_check, now) && forall|n: [u8; 12]|
        #[trigger] s.replay.nonces(sender).contains(n) ==> n@ != nonce)
    &&& (r is Proceed ==> r->nonce@ == nonce && is_room_of(
        s.rooms@,
        opt_view(ab.token),
        r->room@,
    ))
    &&& (!(r is Proceed) ==> r is Refused)
}

/// A request for a session is judged as it should be.
pub proof fn good_requests_go_on(
    s0: Signaling,
    sender: RawKey,
    ab: AuthBody,
    cert_check: Result<(), String>,
    src: IpAddress,
    now: u64,
    r: AuthStep,
    s1: Signaling,
)
    requires
        may_ask(s0, src, now),
        auth_checked(s0, sender, ab, cert_check, src, now, r, s1),
        s0.limiter.counts().dom().contains(src) ==> s0.limiter.counts()[src].1 < usize::MAX,
    ensures
        auth_judged_right(s0, sender, ab, cert_check, now, r),
{
    let old = s0.replay.nonces(sender);
    a_token_opens_its_room(s0.rooms@, opt_view(ab.token));
    if r is Proceed {
        assert forall|n: [u8; 12]| #[trigger] old.contains(n) implies n@
            != base64_decoded(trimmed(ab.nonce@))->Ok_0 by {
            if n@ == r->nonce@ {
                assert(n =~= r->nonce);
            }
        }
    } else if auth_in_order(s0, ab, cert_check, now) {
        assert(!lists(s0.mesh.crl.entries@, ab.device_id@));
        assert(r is Refused);
        let n = choose|n: [u8; 12]|
            #[trigger] old.contains(n) && auth_nonce(ab.nonce@) == Ok::<Seq<u8>, Seq<char>>(n@);
        assert(old.contains(n));
    }
}

/// A request for a session goes on exactly where it is in order and its nonce is new: the
/// token opens a room, the certificate is good, in the device's own name and not revoked,
/// and the clocks are no more than half a minute apart. It leads into the room of the
/// token, and the same request is refused when it comes again.
pub proof fn a_good_request_is_taken_once(
    s0: Signaling,
    sender: RawKey,
    ab: AuthBody,
    cert_check: Result<(), String>,
    src: IpAddress,
    now: u64,
    r: AuthStep,
    s1: Signaling,
    src2: IpAddress,
    later: u64,
    again: AuthStep,
    s2: Signaling,
)
    requires
        may_ask(s0, src, now),
        auth_checked(s0, sender, ab, cert_check, src, now, r, s1),
        auth_checked(s1, sender, ab, cert_check, src2, later, again, s2),
        s0.limiter.counts().dom().contains(src) ==> s0.limiter.counts()[src].1 < usize::MAX,
    ensures
        auth_judged_right(s0, sender, ab, cert_check, now, r),
        r is Proceed ==> !(again is Proceed),
        s1.sessions == s0.sessions && s1.routes == s0.routes && s1.mesh == s0.mesh,
{
    good_requests_go_on(s0, sender, ab, cert_check, src, now, r, s1);
    if r is Proceed {
        let nonce = r->nonce;
        let all = remembered(s0.replay.nonces(sender), nonce);
        assert(s1.replay.nonces(sender) == all);
        assert(all[all.len() - 1] == nonce);
        assert(all.contains(nonce));
        if again is Proceed {
            assert(again->nonce@ =~= nonce@);
            assert(again->nonce =~= nonce);
            assert(!all.contains(again->nonce));
        }
    }
}

/// Whether a session stands under the device's ephemeral key, as it was asked for.
pub open spec fn session_is_there(
    before: Signaling,
    sender: RawKey,
    ab: AuthBody,
    room: Seq<char>,
    ek_c: RawKey,
    sk: RawKey,
    now: u64,
    after: Signaling,
) -> bool {
    let s = after.sessions@[ek_c];
    &&& after.sessions@.dom().contains(ek_c)
    &&& s.ik_x == sender
    &&& s.device_id@ == ab.device_id@
    &&& s.ip@ == ab.cert.allowed_ip@
    &&& s.room@ == room
    &&& s.sk == sk
    &&& s.counter_rx == 0
    &&& s.last_seen == now
    &&& after.routes == before.routes && after.mesh == before.mesh
}

/// Whether a device that was let in is told all it needs: its address, the server's part of
/// the session key, the list of revocations, and the keys of the server and of its mesh.
pub open spec fn is_welcomed(
    before: Signaling,
    ab: AuthBody,
    ek_s: RawKey,
    r: Result<AuthRespBody, String>,
) -> bool {
    &&& before.mesh.seed() is Ok <==> r is Ok
    &&& r is Ok ==> {
        let resp = r->Ok_0;
        &&& resp.allocated_ip@ == ab.cert.allowed_ip@
        &&& resp.ek_s@ == base64_chars(ek_s@)
        &&& resp.crl.version == before.mesh.crl.version
        &&& resp.crl.mesh_id@ == before.mesh.crl.mesh_id@
        &&& resp.crl.entries@ == before.mesh.crl.entries@
        &&& resp.crl.signature == before.mesh.crl.signature
        &&& resp.server_info.server_ik_x@ == base64_chars(before.server_pub@)
        &&& resp.server_info.server_ik_s_pub@ == before.server_ik_s_pub@
        &&& resp.server_info.mesh_root_pub@ == before.mesh_root_pub@
        &&& resp.server_info.mesh_id@ == before.mesh.mesh_id@
        &&& resp.server_info.crl_version == before.mesh.crl.version
        &&& exists|bytes: Seq<u8>|
            bytes.len() == 16 && resp.session_id@ == #[trigger] base64_chars(bytes)
    }
}

/// A session that was opened stands under the device's ephemeral key, with the address of
/// its certificate, its room and its key, and counts its requests from one on. As long as
/// there are fewer than 4096 sessions, and fewer than 8 of this device, no other session
/// ends for it.
pub proof fn an_opened_session_is_there(
    before: Signaling,
    sender: RawKey,
    ab: AuthBody,
    room: String,
    ek_c: RawKey,
    sk: RawKey,
    ek_s: RawKey,
    now: u64,
    r: Result<AuthRespBody, String>,
    after: Signaling,
    other: RawKey,
)
    requires
        before.wf(),
        session_opened(before, sender, ab, room, ek_c, sk, ek_s, now, r, after),
    ensures
        session_is_there(before, sender, ab, room@, ek_c, sk, now, after),
        is_welcomed(before, ab, ek_s, r),
        before.mesh.seed() is Ok ==> r is Ok && r->Ok_0.allocated_ip@ == ab.cert.allowed_ip@
            && r->Ok_0.ek_s@ == base64_chars(ek_s@) && r->Ok_0.crl.version
            == before.mesh.crl.version,
        other != ek_c && after.sessions@.dom().contains(other) ==> before.sessions@.dom().contains(
            other,
        ) && after.sessions@[other] == before.sessions@[other],
        other != ek_c && before.sessions@.dom().contains(other) && before.sessions@.dom().len()
            < 4096 && device_sessions(before.sessions@, ab.device_id@).len() < 8
            ==> after.sessions@.dom().contains(other),
        // A session that ends for it is one that was not used for the longest time.
        other != ek_c && before.sessions@.dom().contains(other) && !after.sessions@.dom().contains(
            other,
        ) ==> {
            ||| forall|k: RawKey|
                before.sessions@.dom().contains(k) ==> before.sessions@[other].last_seen <= (
                #[trigger] before.sessions@[k]).last_seen
            ||| before.sessions@[other].device_id@ == ab.device_id@ && forall|k: RawKey|
                k != ek_c && after.sessions@.dom().contains(k) && (
                #[trigger] after.sessions@[k]).device_id@ == ab.device_id@
                    ==> before.sessions@[other].last_seen <= after.sessions@[k].last_seen
        },
        after.routes == before.routes && after.mesh == before.mesh,
{
    let entry = SessionEntry {
        session_pub: ek_c,
        device_id: ab.device_id,
        ik_x: sender,
        ip: ab.cert.allowed_ip,
        sk,
        counter_rx: 0,
        last_seen: now,
        room,
    };
    assert(registered(before.sessions@, entry, after.sessions@));
    let (m1, m2) = choose|m1: Map<RawKey, SessionEntry>, m2: Map<RawKey, SessionEntry>|
        {
            &&& #[trigger] made_room(
                before.sessions@,
                before.sessions@.dom(),
                crate::server::sessions::MAX_TOTAL_SESSIONS,
                m1,
            )
            &&& #[trigger] made_room(
                m1,
                device_sessions(m1, entry.device_id@),
                crate::server::sessions::MAX_SESSIONS_PER_DEVICE,
                m2,
            )
            &&& after.sessions@ == m2.insert(entry.session_pub, entry)
        };
    if other != ek_c && before.sessions@.dom().contains(other) && !after.sessions@.dom().contains(
        other,
    ) {
        if !m1.dom().contains(other) {
            let k = choose|k: RawKey|
                #[trigger] is_oldest(before.sessions@, before.sessions@.dom(), k) && m1
                    == before.sessions@.remove(k);
            assert(k == other);
        } else {
            let of = device_sessions(m1, entry.device_id@);
            let k = choose|k: RawKey| #[trigger] is_oldest(m1, of, k) && m2 == m1.remove(k);
            assert(k == other);
            assert forall|j: RawKey|
                j != ek_c && after.sessions@.dom().contains(j) && (
                #[trigger] after.sessions@[j]).device_id@ == ab.device_id@ implies before.sessions@[
                other
            ].last_seen <= after.sessions@[j].last_seen by {
                assert(of.contains(j));
                assert(m1[other].last_seen <= m1[j].last_seen);
            }
        }
    }
}

/// Every accepted request moves the number of its session on by one and shows that the
/// device is alive; no other session changes.
pub proof fn a_request_counts_once(
    before: Map<RawKey, SessionEntry>,
    session: RawKey,
    now: u64,
    other: RawKey,
)
    requires
        before.dom().contains(session),
        before[session].counter_rx < u64::MAX,
        other != session,
    ensures
        ({
            let after = advanced(before, session, (before[session].counter_rx + 1) as u64, now);
            &&& after.dom().contains(session)
            &&& after[session].counter_rx == before[session].counter_rx + 1
            &&& after[session].last_seen == now
            &&& after[session].sk == before[session].sk && after[session].ik_x
                == before[session].ik_x && after[session].ip == before[session].ip
                && after[session].room == before[session].room && after[session].device_id
                == before[session].device_id
            &&& after.dom().contains(other) == before.dom().contains(other)
            &&& before.dom().contains(other) ==> after[other] == before[other]
        }),
{
}

/// Whether a registration was answered as it should be.
pub open spec fn is_registered_right(
    before: Signaling,
    session: RawKey,
    rb: RegisterBody,
    src: Seq<char>,
    now: u64,
    reply: SessionReply,
    after: Signaling,
) -> bool {
    let s = before.sessions@[session];
    let fine = {
        &&& rb.ip@ == s.ip@
        &&& rb.token is None || trimmed(rb.token->0@).len() == 0 || opens_a_room(
            before.rooms@,
            opt_view(rb.token),
        )
        &&& rb.alias is None || trimmed(rb.alias->0@).len() == 0 || is_alias(
            canonical(rb.alias->0@),
        )
    };
    &&& fine <==> reply.answer is Reply && reply.answer->Reply_0.ok
    &&& !fine ==> reply.answer is Error && after == before
    &&& fine ==> {
        let e = after.routes.entries()[s.ik_x];
        &&& after.routes.entries().dom().contains(s.ik_x)
        &&& e.public_key == s.ik_x
        &&& e.ip@ == s.ip@
        &&& e.endpoint@ == src
        &&& e.last_seen == now
        &&& e.room@ == s.room@
        &&& e.relay_rk == rb.relay_rk
        &&& rb.alias is Some && trimmed(rb.alias->0@).len() > 0 ==> e.alias is Some
            && e.alias->0@ == canonical(rb.alias->0@)
        &&& rb.alias is None ==> e.alias is None
        &&& after.routes.at_ip(s.ip@) == Some(e)
        &&& rb.relay_rk is Some && (!before.routes.relay_keys().dom().contains(rb.relay_rk->0@)
            || before.routes.relay_keys()[rb.relay_rk->0@] == s.ik_x) ==> after.routes.at_rk(
            rb.relay_rk->0@,
        ) == Some(e)
        &&& forall|k: RawKey|
            k != s.ik_x && entry_of(before.routes.entries(), k) is Some && entry_of(
                before.routes.entries(),
                k,
            )->0.ip@ != s.ip@ ==> #[trigger] entry_of(after.routes.entries(), k) == entry_of(
                before.routes.entries(),
                k,
            )
        &&& after.sessions == before.sessions
    }
}

/// A device registers with the address of its certificate and with a token of a room, or
/// none, and with a name that obeys the rules, or none: then it is accepted, and is reached
/// at the place that it asked from, by its key, by its address and, where nobody else has
/// that, by its relay key. Otherwise nothing changes.
pub proof fn a_registration_is_kept(
    before: Signaling,
    session: RawKey,
    rb: RegisterBody,
    src: Seq<char>,
    now: u64,
    reply: SessionReply,
    after: Signaling,
)
    requires
        before.wf() && after.wf(),
        before.sessions@.dom().contains(session),
        before.sessions@[session].ip@.len() > 0,
        request_answered(before, session, SessionRequest::Register(rb), src, now, reply, after),
    ensures
        is_registered_right(before, session, rb, src, now, reply, after),
{
    let s = before.sessions@[session];
    a_token_opens_its_room(before.rooms@, opt_view(rb.token));
    if reply.answer is Reply {
        let name = own_name(opt_view(rb.alias))->Ok_0;
        let e = choose|e: RouteEntry|
            is_registration(e, s, rb, name, src, now) && #[trigger] upserted(
                before.routes,
                e,
                after.routes,
            );
        assert(after.routes.entries()[s.ik_x] == e);
        before.routes.the_indices_agree();
    }
}

/// Whether a query asks for a registered device: by its address, by a name that the
/// administrator bound to that, or by a name that no other device in the room has.
pub open spec fn asks_for(s: Signaling, session: RawKey, qb: QueryBody, device: RawKey) -> bool {
    match qb.name {
        None => qb.ip@ == s.routes.entries()[device].ip@,
        Some(name) => {
            let c = canonical(name@);
            &&& c.len() > 0
            &&& if s.aliases@.dom().contains(c) {
                s.aliases@[c]@ == s.routes.entries()[device].ip@
            } else {
                &&& s.routes.entries()[device].alias is Some
                &&& s.routes.entries()[device].alias->0@ == c
                &&& s.routes.entries()[device].room@ == s.sessions@[session].room@
                &&& forall|k: RawKey|
                    s.routes.entries().dom().contains(k) && k != device && (
                    #[trigger] s.routes.entries()[k]).alias is Some
                        ==> s.routes.entries()[k].alias->0@ != c
                        || s.routes.entries()[k].room@ != s.sessions@[session].room@
            }
        },
    }
}

/// Whether a query for a device was answered as it should be: with where it is, and it is
/// told who asks; or, from another room, as if it were not there.
pub open spec fn is_answered_right(
    s: Signaling,
    session: RawKey,
    qb: QueryBody,
    src: Seq<char>,
    reply: SessionReply,
    device: RawKey,
) -> bool {
    &&& reply.answer is Reply
    &&& ({
        let e = s.routes.entries()[device];
        let b = reply.answer->Reply_0;
        if e.room@ == s.sessions@[session].room@ {
            &&& b.ok && b.data is QueryHit
            &&& b.data->QueryHit_ip@ == e.ip@
            &&& b.data->QueryHit_public_key@ == base64_chars(device@)
            &&& b.data->QueryHit_endpoint@ == e.endpoint@
            &&& b.data->QueryHit_relay_rk == e.relay_rk
            &&& reply.notice is Some
            &&& reply.notice->0.to == e
            &&& reply.notice->0.about.public_key@ == base64_chars(
                s.sessions@[session].ik_x@,
            )
            &&& reply.notice->0.about.endpoint@ == src
            &&& qb.name is Some ==> b.data->QueryHit_req@ == qb.name->0@
                && b.data->QueryHit_alias@ == qb.name->0@
            &&& qb.name is None ==> b.data->QueryHit_req@ == qb.ip@ && b.data->QueryHit_alias@ == (
            match e.alias {
                Some(a) => a@,
                None => Seq::<char>::empty(),
            })
            &&& match entry_of(s.routes.entries(), s.sessions@[session].ik_x) {
                Some(own) => {
                    &&& reply.notice->0.about.relay_rk == own.relay_rk
                    &&& reply.notice->0.about.alias == own.alias
                    &&& reply.notice->0.about.ip == Some(own.ip)
                },
                None => reply.notice->0.about.relay_rk is None,
            }
        } else {
            !b.ok && b.data is QueryMiss && reply.notice is None
        }
    })
}

/// A query finds the device in the asker's room that has the address or the name, says
/// where it is, and tells that device who asks and from where. It finds nobody else and
/// changes nothing.
pub proof fn a_query_brings_two_devices_together(
    s: Signaling,
    session: RawKey,
    qb: QueryBody,
    src: Seq<char>,
    now: u64,
    reply: SessionReply,
    after: Signaling,
    device: RawKey,
)
    requires
        s.wf(),
        s.sessions@.dom().contains(session),
        request_answered(s, session, SessionRequest::Query(qb), src, now, reply, after),
        is_registered(s, device),
        asks_for(s, session, qb, device),
    ensures
        after == s,
        is_answered_right(s, session, qb, src, reply, device),
{
    s.routes.the_indices_agree();
    let e = s.routes.entries()[device];
    let room = s.sessions@[session].room@;
    assert(s.routes.at_ip(e.ip@) == Some(e));
    if qb.name is Some {
        let c = canonical(qb.name->0@);
        if !s.aliases@.dom().contains(c) {
            let m = s.routes.entries();
            assert(crate::server::routes::is_named(m, c, room, device));
            assert(!crate::client::peer::key_above(device, device));
            assert forall|j: RawKey| crate::server::routes::is_named(m, c, room, j) implies j
                == device by {
                if j != device {
                    assert(m[j].alias is Some);
                }
            }
            assert(first_named(m, c, room, device));
            assert(named_address(m, c, room) == Some(e.ip@));
        }
        assert(resolved_name(s, c, room) == Some(e.ip@));
    }
}

/// A device that says goodbye is gone: its session ends, and it is found by nobody.
pub proof fn goodbye_is_final(
    before: Signaling,
    session: RawKey,
    src: Seq<char>,
    now: u64,
    reply: SessionReply,
    after: Signaling,
    other: RawKey,
)
    requires
        before.sessions@.dom().contains(session),
        request_answered(before, session, SessionRequest::Bye, src, now, reply, after),
    ensures
        reply.answer is Reply && reply.answer->Reply_0.ok,
        !after.sessions@.dom().contains(session),
        !after.routes.entries().dom().contains(before.sessions@[session].ik_x),
        other != session ==> after.sessions@.dom().contains(other)
            == before.sessions@.dom().contains(other),
        other != before.sessions@[session].ik_x ==> entry_of(after.routes.entries(), other)
            == entry_of(before.routes.entries(), other),
{
}

/// Whether a revocation has taken effect, on the device and on a session, and on no other
/// device.
pub open spec fn revokes_at_once(
    before: Signaling,
    device_id: Seq<char>,
    reason: crate::cert::RevokeReason,
    now: u64,
    r: Result<u64, String>,
    after: Signaling,
    session: RawKey,
    other: Seq<char>,
) -> bool {
    &&& (r is Ok <==> before.mesh.seed() is Ok && before.mesh.crl.entries@.len() < 256 && !lists(
        before.mesh.crl.entries@,
        device_id,
    ))
    &&& (r is Ok ==> {
        &&& r->Ok_0 == before.mesh.crl.version + 1 == after.mesh.crl.version
        &&& lists(after.mesh.crl.entries@, device_id)
        &&& lists(before.mesh.crl.entries@, other) ==> lists(after.mesh.crl.entries@, other)
        &&& other != device_id && lists(after.mesh.crl.entries@, other) ==> lists(
            before.mesh.crl.entries@,
            other,
        )
        &&& after.sessions@.dom().contains(session) ==> before.sessions@.dom().contains(session)
            && after.sessions@[session] == before.sessions@[session]
            && after.sessions@[session].device_id@ != device_id
        &&& before.sessions@.dom().contains(session) && before.sessions@[session].device_id@
            != device_id ==> after.sessions@.dom().contains(session)
        &&& before.sessions@.dom().contains(session) && before.sessions@[session].device_id@
            == device_id ==> !after.routes.entries().dom().contains(
            before.sessions@[session].ik_x,
        )
        &&& forall|m: int|
            0 <= m < after.mesh.members@.len() ==> (#[trigger] after.mesh.members@[m]).device_id@
                != device_id
        &&& forall|m: int|
            0 <= m < before.mesh.members@.len() && (
            #[trigger] before.mesh.members@[m]).device_id@ != device_id
                ==> after.mesh.members@.contains(before.mesh.members@[m])
        &&& after.mesh.crl.entries@.last().device_id@ == device_id
            && after.mesh.crl.entries@.last().reason == reason
            && after.mesh.crl.entries@.last().revoked_at == now
        &&& forall|k: RawKey|
            before.routes.entries().dom().contains(k) && !after.routes.entries().dom().contains(k)
                ==> exists|x: RawKey|
                before.sessions@.dom().contains(x) && (#[trigger] before.sessions@[x]).ik_x == k
                    && before.sessions@[x].device_id@ == device_id
    })
}

/// A revocation takes effect at once and for good: the device has no session and no route
/// any more, is no member, and neither a request for a session nor one to join is granted
/// to it. It succeeds for every device that is not revoked yet, as long as there are fewer
/// than 256 revocations, and no session of another device ends.
pub proof fn a_revocation_takes_effect_at_once(
    before: Signaling,
    device_id: Seq<char>,
    reason: crate::cert::RevokeReason,
    now: u64,
    r: Result<u64, String>,
    after: Signaling,
    session: RawKey,
    other: Seq<char>,
)
    requires
        before.wf(),
        device_revoked(before, device_id, reason, now, r, after),
        before.mesh.crl.version < u64::MAX,
    ensures
        revokes_at_once(before, device_id, reason, now, r, after, session, other),
{
    if r is Ok {
        let entries = after.mesh.crl.entries@;
        crate::server::mesh::revoking_is_final(&before.mesh, entries, device_id, reason, now);
        let gone = device_sessions(before.sessions@, device_id);
        if before.sessions@.dom().contains(session) && before.sessions@[session].device_id@
            == device_id {
            assert(gone.contains(session));
            assert(keys_of(before.sessions@, gone).contains(before.sessions@[session].ik_x));
        }
        if other != device_id && lists(entries, other) {
            let k = choose|k: int|
                0 <= k < entries.len() && (#[trigger] entries[k]).device_id@ == other;
            assert(entries.drop_last()[k] == entries[k]);
            assert(before.mesh.crl.entries@[k].device_id@ == other);
        }
        crate::seqs::lemma_filter_members(
            before.mesh.members@,
            crate::server::mesh::other_than(device_id),
        );
        let kept = after.mesh.members@;
        assert forall|m: int| 0 <= m < kept.len() implies (#[trigger] kept[m]).device_id@
            != device_id by {
            assert(crate::server::mesh::other_than(device_id)(kept[m]));
        }
    }
}

/// Whether a frame names two registered devices: by their public keys, or by the relay keys
/// that are bound to them.
pub open spec fn names_devices(
    routes: RouteTable,
    by_rk: bool,
    src_key: RawKey,
    dest_key: RawKey,
    src: RawKey,
    dest: RawKey,
) -> bool {
    &&& routes.entries().dom().contains(src) && routes.entries().dom().contains(dest)
    &&& if by_rk {
        &&& routes.relay_keys().dom().contains(base64_chars(src_key@))
        &&& routes.relay_keys()[base64_chars(src_key@)] == src
        &&& routes.relay_keys().dom().contains(base64_chars(dest_key@))
        &&& routes.relay_keys()[base64_chars(dest_key@)] == dest
    } else {
        src_key == src && dest_key == dest
    }
}

/// Whether a frame names two registered devices of one room, and its source has a session.
pub open spec fn may_reach(
    routes: RouteTable,
    sessions: Map<RawKey, SessionEntry>,
    by_rk: bool,
    src_key: RawKey,
    dest_key: RawKey,
    src: RawKey,
    dest: RawKey,
    session: RawKey,
) -> bool {
    &&& names_devices(routes, by_rk, src_key, dest_key, src, dest)
    &&& routes.entries()[src].room@ == routes.entries()[dest].room@
    &&& sessions.dom().contains(session) && sessions[session].ik_x == src
}

/// A frame reaches its destination where its source has a session and both are registered
/// in one room, with rooms in use or not, by public key and by relay key alike; it goes to
/// the place where that device is. Between two rooms nothing passes, and nothing from a
/// device without a session.
pub proof fn a_frame_reaches_its_room(
    before: RouteTable,
    sessions: Map<RawKey, SessionEntry>,
    rooms_enabled: bool,
    by_rk: bool,
    src_key: RawKey,
    dest_key: RawKey,
    place: Seq<char>,
    now: u64,
    after: RouteTable,
    src: RawKey,
    dest: RawKey,
    session: RawKey,
)
    requires
        before.wf() && after.wf(),
        names_devices(before, by_rk, src_key, dest_key, src, dest),
        source_refreshed(before, sessions, by_rk, src_key, place, now, after),
    ensures
        ({
            let r = forwarded(before, after, sessions, rooms_enabled, by_rk, src_key, dest_key);
            let same = before.entries()[src].room@ == before.entries()[dest].room@;
            &&& may_reach(before, sessions, by_rk, src_key, dest_key, src, dest, session) ==> {
                &&& r is Some
                &&& r->0.public_key == dest
                &&& dest != src ==> r->0 == before.entries()[dest]
            }
            &&& !same ==> r is None
            &&& (forall|k: RawKey|
                sessions.dom().contains(k) ==> (#[trigger] sessions[k]).ik_x != src) ==> r is None
                && after == before
        }),
        // Only a frame by public key tells where its source is.
        by_rk ==> after == before,
        !by_rk && sessions.dom().contains(session) && sessions[session].ik_x == src ==> {
            let e = after.entries()[src];
            &&& after.entries().dom().contains(src)
            &&& e.endpoint@ == place
            &&& e.last_seen == now
            &&& e.ip == before.entries()[src].ip && e.room == before.entries()[src].room
                && e.relay_rk == before.entries()[src].relay_rk && e.alias
                == before.entries()[src].alias
        },
        forall|k: RawKey|
            k != src ==> #[trigger] entry_of(after.entries(), k) == entry_of(before.entries(), k),
{
    before.the_indices_agree();
    after.the_indices_agree();
    if sessions.dom().contains(session) && sessions[session].ik_x == src {
        assert(crate::server::sessions::active_keys(sessions).contains(src));
    }
}

/// Batching loses nothing and changes no order: for every destination, what is sent now
/// and what still waits are together what waited before and, for its own destination, the
/// new frame behind it. A batch is sent just when it has reached the limit, to the place
/// that was named last.
pub proof fn batching_keeps_every_frame(
    before: RelayBatcher,
    dest: RawKey,
    addr: String,
    sub: Seq<u8>,
    r: Option<PendingBatch>,
    after: RelayBatcher,
    other: RawKey,
)
    requires
        frame_batched(before, dest, addr, sub, r, after),
        total_len(before.frames_for(dest).push(sub)) <= usize::MAX,
    ensures
        other != dest ==> after.frames_for(other) == before.frames_for(other),
        (match r {
            Some(b) => packets_view(b.frames@),
            None => Seq::empty(),
        }) + after.frames_for(dest) == before.frames_for(dest).push(sub),
        r is Some <==> total_len(before.frames_for(dest).push(sub)) >= before.limit(),
        r is Some ==> r->0.addr@ == addr@ && after.frames_for(dest).len() == 0,
        r is None ==> after.waiting().dom().contains(dest) && after.waiting()[dest].addr@ == addr@,
{
    let all = before.frames_for(dest).push(sub);
    match r {
        Some(b) => {
            assert(packets_view(b.frames@) + after.frames_for(dest) =~= all);
        },
        None => {
            assert(Seq::<Seq<u8>>::empty() + after.frames_for(dest) =~= all);
        },
    }
}

/// Of the requests that an address makes within one minute of its first one, as many pass
/// as are allowed, and no more; the first one after that minute passes again.
pub proof fn an_address_may_ask_so_often_a_minute(
    states: Seq<RateLimiter>,
    times: Seq<u64>,
    ip: IpAddress,
    k: int,
)
    requires
        states.len() == times.len() + 1,
        states[0].allowed() > 0,
        states[0].allowed() < usize::MAX,
        !states[0].counts().dom().contains(ip),
        forall|i: int|
            0 <= i < times.len() ==> #[trigger] counted_once(
                states[i],
                ip,
                times[i],
                states[i + 1],
            ),
        0 <= k < times.len(),
        times.len() < usize::MAX,
        forall|i: int| 0 <= i < k ==> times[0] <= #[trigger] times[i] < times[0] + 60,
        times[0] <= times[k],
    ensures
        times[k] < times[0] + 60 ==> exceeds(states[k], ip, times[k]) == (k
            >= states[0].allowed()),
        times[k] >= times[0] + 60 ==> !exceeds(states[k], ip, times[k]),
    decreases k,
{
    lemma_counts(states, times, ip, k);
}

proof fn lemma_counts(states: Seq<RateLimiter>, times: Seq<u64>, ip: IpAddress, k: int)
    requires
        states.len() == times.len() + 1,
        states[0].allowed() > 0,
        !states[0].counts().dom().contains(ip),
        forall|i: int|
            0 <= i < times.len() ==> #[trigger] counted_once(
                states[i],
                ip,
                times[i],
                states[i + 1],
            ),
        0 <= k < times.len(),
        times.len() < usize::MAX,
        forall|i: int| 0 <= i < k ==> times[0] <= #[trigger] times[i] < times[0] + 60,
    ensures
        states[k].allowed() == states[0].allowed(),
        k == 0 ==> !states[k].counts().dom().contains(ip),
        k > 0 ==> states[k].counts().dom().contains(ip) && states[k].counts()[ip] == (
            times[0],
            k as usize,
        ),
    decreases k,
{
    if k > 0 {
        lemma_counts(states, times, ip, k - 1);
        assert(counted_once(states[k - 1], ip, times[k - 1], states[k - 1 + 1]));
        assert(times[0] <= times[k - 1] < times[0] + 60);
    }
}

/// A room that the administrator adds is opened by its token, which has six bytes at
/// least, and by no other spelling of the name is another room made.
pub proof fn an_added_room_is_opened_by_its_token(
    before: Seq<RoomEntry>,
    after: Seq<RoomEntry>,
    name: Seq<char>,
    token: Seq<char>,
)
    requires
        room_error(name, token) is None,
        room_added(before, after, canonical(name), token_digest(token)),
        forall|j: int|
            0 <= j < before.len() && (#[trigger] before[j]).token_hash@ == token_digest(token)
                ==> before[j].name@ == canonical(name),
    ensures
        encode_utf8(trimmed(token)).len() >= 6,
        is_alias(canonical(name)),
        room_of_token(after, Some(token)) == Ok::<Seq<char>, Seq<char>>(canonical(name)),
        forall|j: int|
            0 <= j < before.len() ==> (#[trigger] after[j]).name@ == before[j].name@,
{
    let hash = token_digest(token);
    crate::server::config::a_room_is_found_by_its_token(before, after, canonical(name), hash);
    lemma_lookup(after, hash);
    a_token_opens_its_room(after, Some(token));
    assert(trimmed(token).len() > 0) by {
        if trimmed(token).len() == 0 {
            assert(trimmed(token) =~= Seq::<char>::empty());
            assert(encode_utf8(trimmed(token)).len() == 0);
        }
    }
    assert forall|j: int| 0 <= j < before.len() implies (#[trigger] after[j]).name@
        == before[j].name@ by {
        if !crate::server::config::any_room_named(before, canonical(name)) {
            assert(after.drop_last()[j] == after[j]);
        }
    }
    match room_lookup(after, hash) {
        Some(room) => {
            let k = choose|k: int|
                {
                    &&& 0 <= k < after.len()
                    &&& (#[trigger] after[k]).token_hash@ == hash
                    &&& after[k].name@ == room
                    &&& forall|j: int| 0 <= j < k ==> (#[trigger] after[j]).token_hash@ != hash
                };
            assert(crate::server::config::room_hashed(after, hash, k));
        },
        None => {
            let k = choose|k: int| 0 <= k < after.len() && (#[trigger] after[k]).token_hash@ == hash;
        },
    }
}

/// Whether an answer names a device that is registered in a room.
pub open spec fn is_named_in(
    reply: SessionReply,
    s: Signaling,
    device: RawKey,
    room: Seq<char>,
) -> bool {
    let data = reply.answer->Reply_0.data;
    let e = s.routes.entries()[device];
    &&& s.routes.entries().dom().contains(device)
    &&& e.room@ == room
    &&& data is QueryHit
    &&& data->QueryHit_public_key@ == base64_chars(e.public_key@)
    &&& data->QueryHit_ip@ == e.ip@
    &&& data->QueryHit_endpoint@ == e.endpoint@
}

/// Whether a request within a session was served as it should be: heartbeats and
/// registrations make the device found, queries bring devices together, and a goodbye ends
/// the session.
pub open spec fn request_served(
    before: Signaling,
    session: RawKey,
    request: SessionRequest,
    src: Seq<char>,
    now: u64,
    reply: SessionReply,
    after: Signaling,
) -> bool {
    &&& after.mesh == before.mesh && after.rooms == before.rooms && after.aliases == before.aliases
    &&& !(request is Query) ==> reply.notice is None
    &&& match request {
        SessionRequest::Heartbeat => {
            &&& is_registered(before, before.sessions@[session].ik_x) ==> is_heard(
                before,
                session,
                src,
                now,
                reply,
                after,
            )
            &&& !before.routes.entries().dom().contains(before.sessions@[session].ik_x) ==> after
                == before
            &&& reply.answer is Reply && reply.answer->Reply_0.ok && reply.answer->Reply_0.error
                is None
        },
        SessionRequest::Register(rb) => before.sessions@[session].ip@.len() > 0
            ==> is_registered_right(before, session, rb, src, now, reply, after),
        SessionRequest::Query(qb) => {
            &&& after == before
            &&& forall|device: RawKey|
                is_registered(before, device) && #[trigger] asks_for(before, session, qb, device)
                    ==> is_answered_right(before, session, qb, src, reply, device)
            &&& reply.answer is Reply && reply.answer->Reply_0.ok ==> exists|device: RawKey|
                #[trigger] is_named_in(reply, before, device, before.sessions@[session].room@)
            &&& reply.answer is Reply && !reply.answer->Reply_0.ok ==> reply.notice is None
                && reply.answer->Reply_0.error is Some && reply.answer->Reply_0.data is QueryMiss
        },
        SessionRequest::Bye => {
            &&& reply.answer is Reply && reply.answer->Reply_0.ok
            &&& !after.sessions@.dom().contains(session)
            &&& forall|k: RawKey|
                k != session && before.sessions@.dom().contains(k)
                    ==> #[trigger] after.sessions@.dom().contains(k) && after.sessions@[k]
                    == before.sessions@[k]
            &&& forall|k: RawKey|
                k != before.sessions@[session].ik_x ==> #[trigger] entry_of(
                    after.routes.entries(),
                    k,
                ) == entry_of(before.routes.entries(), k)
            &&& !after.routes.entries().dom().contains(before.sessions@[session].ik_x)
        },
        SessionRequest::Unsupported => after == before && reply.answer is Reply
            && !reply.answer->Reply_0.ok,
    }
}

/// Every request within a session is served as it should be.
pub proof fn requests_are_served(
    before: Signaling,
    session: RawKey,
    request: SessionRequest,
    src: Seq<char>,
    now: u64,
    reply: SessionReply,
    after: Signaling,
)
    requires
        before.wf() && after.wf(),
        before.sessions@.dom().contains(session),
        request_answered(before, session, request, src, now, reply, after),
    ensures
        request_served(before, session, request, src, now, reply, after),
{
    match request {
        SessionRequest::Heartbeat => {
            if is_registered(before, before.sessions@[session].ik_x) {
                a_heartbeat_is_heard(before, session, src, now, reply, after);
            }
        },
        SessionRequest::Register(rb) => {
            if before.sessions@[session].ip@.len() > 0 {
                a_registration_is_kept(before, session, rb, src, now, reply, after);
            }
        },
        SessionRequest::Query(qb) => {
            assert forall|device: RawKey|
                is_registered(before, device) && #[trigger] asks_for(
                    before,
                    session,
                    qb,
                    device,
                ) implies is_answered_right(before, session, qb, src, reply, device) by {
                a_query_brings_two_devices_together(
                    before,
                    session,
                    qb,
                    src,
                    now,
                    reply,
                    after,
                    device,
                );
            }
            if reply.answer->Reply_0.ok {
                let room = before.sessions@[session].room@;
                let e = query_target(before, qb, room)->0;
                let ip = query_address(before, qb, room)->0;
                let device = before.routes.addresses()[ip];
                assert(before.routes.at_ip(ip) == Some(e));
                assert(is_named_in(reply, before, device, room));
            }
        },
        _ => {},
    }
}

/// A device that asks to join under its own key, not too often, and with everything in
/// order, is let in and told of the mesh as it is then.
pub proof fn a_request_to_join_is_granted(
    before: Signaling,
    sender: RawKey,
    jb: JoinBody,
    expected_id: Result<String, String>,
    src: IpAddress,
    now: u64,
    r: JoinOutcome,
    after: Signaling,
    i: int,
)
    requires
        join_handled(before, sender, jb, expected_id, src, now, r, after),
        may_ask(before, src, now),
        before.limiter.counts().dom().contains(src) ==> before.limiter.counts()[src].1 < usize::MAX,
        jb.ik_x@ == base64_chars(sender@),
        may_join(before.mesh, before.rooms@, jb, expected_id, i, now),
        now + 365 * 24 * 3600 <= u64::MAX,
    ensures
        r is Joined,
        is_let_in(before.mesh, jb, i, now, Ok(r->grant), after.mesh),
        r->server_info.mesh_id == after.mesh.mesh_id && r->server_info.mesh_root_pub
            == before.mesh_root_pub && r->server_info.server_ik_x@ == base64_chars(
            before.server_pub@,
        ) && r->server_info.crl_version == before.mesh.crl.version,
        r->crl.entries@ == before.mesh.crl.entries@ && r->crl.version == before.mesh.crl.version,
        after.sessions == before.sessions && after.routes == before.routes,
{
    let g = choose|g: Result<JoinGrant, String>|
        {
            &&& #[trigger] join_answer(
                before.mesh,
                before.rooms@,
                jb,
                expected_id,
                now,
                g,
                after.mesh,
            )
            &&& match g {
                Err(e) => r is Refused && r->Refused_0@ == e@,
                Ok(grant) => {
                    &&& r is Joined
                    &&& r->grant == grant
                    &&& after.is_own_info(r->server_info)
                    &&& r->crl.version == after.mesh.crl.version
                    &&& r->crl.mesh_id == after.mesh.crl.mesh_id
                    &&& r->crl.entries@ == after.mesh.crl.entries@
                    &&& r->crl.signature == after.mesh.crl.signature
                },
            }
        };
    a_device_with_an_invitation_joins(
        before.mesh,
        before.rooms@,
        jb,
        expected_id,
        i,
        now,
        g,
        after.mesh,
    );
    let hash = code_digest(jb.code@);
    a_token_opens_its_room(before.rooms@, opt_view(jb.token));
    let at = choose|at: int|
        {
            &&& #[trigger] invite_at(before.mesh.invites@, hash, at)
            &&& match invite_error(before.mesh.invites@[at], now) {
                Some(e) => join_refused(before.mesh, g, after.mesh, "加入失败: "@ + e),
                None => join_invited(before.mesh, at, jb, expected_id, now, g, after.mesh),
            }
        };
    let got = choose|got: Result<Seq<char>, Seq<char>>|
        {
            &&& #[trigger] allocation(&before.mesh, at, join_wish(before.mesh.invites@[at], jb), got)
            &&& match got {
                Err(e) => join_refused(before.mesh, g, after.mesh, e),
                Ok(ip) => join_addressed(before.mesh, at, jb, ip, now, g, after.mesh),
            }
        };
    let ip = got->Ok_0;
    let c = choose|c: Result<DeviceCert, String>|
        {
            &&& #[trigger] cert_outcome(
                &before.mesh,
                at,
                jb.device_id@,
                jb.ik_x@,
                jb.ik_s_pub@,
                trimmed(ip),
                now,
                c,
            )
            &&& match c {
                Err(e) => join_refused(before.mesh, g, after.mesh, "签发证书失败: "@ + e@),
                Ok(cert) => join_granted(before.mesh, at, jb, ip, cert, now, g, after.mesh),
            }
        };
    assert(join_granted(before.mesh, at, jb, ip, c->Ok_0, now, g, after.mesh));
}

/// What the server says of itself is what it goes by: its keys, the root of its mesh, and how
/// far its list of revocations has come.
pub proof fn the_server_shows_its_own_keys(s: Signaling, info: crate::cert::ServerInfo)
    requires
        s.is_own_info(info),
    ensures
        info.mesh_id@ == s.mesh.mesh_id@ && info.server_name@ == s.server_name@,
        info.mesh_root_pub@ == s.mesh_root_pub@,
        info.server_ik_x@ == base64_chars(s.server_pub@),
        info.server_ik_s_pub@ == s.server_ik_s_pub@,
        info.protocol_ver == s.protocol_ver,
        info.crl_version == s.mesh.crl.version,
        info.auth_required,
{
}

/// An address that was wished for is given where it is free; else the first of the pool that
/// is, and none only where all of them are taken.
pub proof fn the_first_free_address_is_given(
    mesh: MeshConfig,
    own: int,
    wished: Seq<char>,
    r: Result<Seq<char>, Seq<char>>,
    i: int,
)
    requires
        crate::server::mesh::allocation(&mesh, own, wished, r),
        0 <= i < mesh.ip_pool@.len(),
        is_free(mesh, own, mesh.ip_pool@[i]@),
    ensures
        r is Ok && is_free(mesh, own, r->Ok_0),
        wished.len() > 0 && is_free(mesh, own, wished) ==> r->Ok_0 == wished,
        wished.len() == 0 || !is_free(mesh, own, wished) ==> exists|k: int|
            0 <= k <= i && #[trigger] mesh.ip_pool@[k]@ == r->Ok_0,
{
    assert(!taken(&mesh, own, mesh.ip_pool@[i]@));
    assert(is_free(mesh, own, wished) <==> !taken(&mesh, own, wished)) by {
        if !taken(&mesh, own, wished) {
            assert forall|m: int| 0 <= m < mesh.members@.len() implies (
            #[trigger] mesh.members@[m]).cert.allowed_ip@ != wished by {}
        }
    }
    if wished.len() == 0 || !is_free(mesh, own, wished) {
        let k = choose|k: int|
            #[trigger] first_free(&mesh, own, k) && r->Ok_0 == mesh.ip_pool@[k]@;
        assert(first_free(&mesh, own, k));
        assert(k <= i);
        assert(mesh.ip_pool@[k]@ == r->Ok_0);
    }
}

/// A room that was removed is gone, and no token opens it; all other rooms stay as they were,
/// in their order.
pub proof fn a_removed_room_is_closed(
    before: Signaling,
    name: Seq<char>,
    r: Result<String, String>,
    after: Signaling,
    room: RoomEntry,
    token: Option<Seq<char>>,
)
    requires
        crate::server::control::room_removed(before, name, r, after),
    ensures
        after.rooms@.contains(room) <==> before.rooms@.contains(room) && room.name@ != name,
        r is Ok <==> exists|k: int|
            0 <= k < before.rooms@.len() && (#[trigger] before.rooms@[k]).name@ == name,
        after.rooms@.len() > 0 ==> !is_room_of(after.rooms@, token, name),
        after.sessions == before.sessions && after.mesh == before.mesh && after.routes
            == before.routes,
{
    let keep = crate::server::control::other_rooms(name);
    crate::seqs::lemma_filter_members(before.rooms@, keep);
    if before.rooms@.contains(room) && room.name@ != name {
        let i = choose|i: int| 0 <= i < before.rooms@.len() && before.rooms@[i] == room;
        before.rooms@.lemma_filter_contains(keep, i);
    }
    if after.rooms@.contains(room) {
        let i = choose|i: int| 0 <= i < after.rooms@.len() && after.rooms@[i] == room;
        assert(keep(before.rooms@.filter(keep)[i]));
    }
    assert forall|k: int| 0 <= k < after.rooms@.len() implies (#[trigger] after.rooms@[k]).name@
        != name by {
        assert(keep(before.rooms@.filter(keep)[k]));
    }
}

} // verus!
