//! Joining: rooms, names, and the way of a device into the mesh.
use vstd::prelude::*;
use vstd::string::*;
use crate::alias::{alias_error, canonical, is_alias};
use crate::cert::DeviceCert;
use crate::protocol::{opt_str, opt_view, JoinBody};
use crate::server::config::{token_digest, validate_alias, RoomEntry, ServerConfig};
use crate::server::laws::{
    a_device_with_an_invitation_joins, is_let_in, may_join, only_the_invited_join, was_invited,
};
use crate::server::mesh::{
    allocation, any_invite, cert_outcome, code_digest, held, invite_at, invite_error, result_view,
    set_aside, used_up, InviteEntry, MeshConfig, CERT_VALIDITY_SECS,
};
use crate::text::{lemma_trimmed_twice, same, trim, trimmed};

verus! {

/// The room that a token digest belongs to: that of the first entry with it.
pub open spec fn room_lookup(rooms: Seq<RoomEntry>, hash: Seq<char>) -> Option<Seq<char>>
    decreases rooms.len(),
{
    if rooms.len() == 0 {
        None
    } else if rooms[0].token_hash@ == hash {
        Some(rooms[0].name@)
    } else {
        room_lookup(rooms.skip(1), hash)
    }
}

/// The room that a token leads to. Without rooms everybody is in one open room;
/// with rooms a token is needed, and it has to be the token of one of them.
pub open spec fn room_of_token(rooms: Seq<RoomEntry>, token: Option<Seq<char>>) -> Result<
    Seq<char>,
    Seq<char>,
> {
    if rooms.len() == 0 {
        Ok("default"@)
    } else if token is None || trimmed(token->0).len() == 0 {
        Err("缺少房间令牌（服务器启用了令牌验证，请用 --token 指定）"@)
    } else {
        match room_lookup(rooms, token_digest(token->0)) {
            Some(name) => Ok(name),
            None => Err("房间令牌无效（请核对令牌后重试）"@),
        }
    }
}

/// The room that a token leads to.
pub fn resolve_room(rooms: &Vec<RoomEntry>, token: Option<&str>) -> (r: Result<String, String>)
    ensures
        match r {
            Ok(name) => room_of_token(
                rooms@,
                match token {
                    Some(t) => Some(t@),
                    None => None,
                },
            ) == Ok::<Seq<char>, Seq<char>>(name@),
            Err(e) => room_of_token(
                rooms@,
                match token {
                    Some(t) => Some(t@),
                    None => None,
                },
            ) == Err::<Seq<char>, Seq<char>>(e@),
        },
{
    if rooms.len() == 0 {
        return Ok("default".to_owned());
    }
    match token {
        Some(t) => {
            let bare = trim(t);
            if bare.is_empty() {
                return Err(
                    "缺少房间令牌（服务器启用了令牌验证，请用 --token 指定）".to_owned(),
                );
            }
            let hash = ServerConfig::hash_token(bare);
            proof {
                lemma_trimmed_twice(t@);
            }
            let mut i: usize = 0;
            assert(rooms@.skip(0) =~= rooms@);
            while i < rooms.len()
                invariant
                    i <= rooms@.len(),
                    hash@ == token_digest(t@),
                    token == Some(t),
                    trimmed(t@).len() > 0,
                    rooms@.len() > 0,
                    room_lookup(rooms@, hash@) == room_lookup(rooms@.skip(i as int), hash@),
                decreases rooms@.len() - i,
            {
                if same(rooms[i].token_hash.as_str(), hash.as_str()) {
                    return Ok(rooms[i].name.clone());
                }
                assert(rooms@.skip(i as int).skip(1) =~= rooms@.skip(i + 1));
                i = i + 1;
            }
            Err("房间令牌无效（请核对令牌后重试）".to_owned())
        },
        None => Err(
            "缺少房间令牌（服务器启用了令牌验证，请用 --token 指定）".to_owned(),
        ),
    }
}

/// The name that a device gives itself, in canonical form. A blank one counts as
/// none.
pub open spec fn own_name(alias: Option<Seq<char>>) -> Result<Option<Seq<char>>, Seq<char>> {
    if alias is None || trimmed(alias->0).len() == 0 {
        Ok(None)
    } else if is_alias(canonical(alias->0)) {
        Ok(Some(canonical(alias->0)))
    } else {
        Err(alias_error(canonical(alias->0)))
    }
}

/// Checks the name that a device gives itself.
pub fn normalize_self_alias(alias: Option<&str>) -> (r: Result<Option<String>, String>)
    ensures
        match r {
            Ok(name) => own_name(
                match alias {
                    Some(a) => Some(a@),
                    None => None,
                },
            ) == Ok::<Option<Seq<char>>, Seq<char>>(opt_view(name)),
            Err(e) => own_name(
                match alias {
                    Some(a) => Some(a@),
                    None => None,
                },
            ) == Err::<Option<Seq<char>>, Seq<char>>(e@),
        },
{
    match alias {
        Some(a) => {
            if trim(a).is_empty() {
                return Ok(None);
            }
            match validate_alias(a) {
                Ok(n) => Ok(Some(n)),
                Err(e) => Err(e),
            }
        },
        None => Ok(None),
    }
}

/// What a device gets that joins the mesh.
pub struct JoinGrant {
    pub allocated_ip: String,
    pub cert: DeviceCert,
}

/// The address that a device wishes: the one set aside by its invitation, else the
/// one it asks for.
pub open spec fn join_wish(invite: InviteEntry, jb: JoinBody) -> Seq<char> {
    match invite.ip {
        Some(ip) => trimmed(ip@),
        None => match jb.requested_ip {
            Some(ip) => trimmed(ip@),
            None => Seq::empty(),
        },
    }
}

/// A refusal for a reason, which leaves the mesh as it was.
pub open spec fn join_refused(
    before: MeshConfig,
    r: Result<JoinGrant, String>,
    after: MeshConfig,
    reason: Seq<char>,
) -> bool {
    r is Err && r->Err_0@ == reason && after == before
}

/// The last step into the mesh: the device has a certificate, and its name is in
/// order.
pub open spec fn join_granted(
    before: MeshConfig,
    i: int,
    jb: JoinBody,
    ip: Seq<char>,
    cert: DeviceCert,
    now: u64,
    r: Result<JoinGrant, String>,
    after: MeshConfig,
) -> bool {
    match own_name(opt_view(jb.alias)) {
        Err(e) => join_refused(before, r, after, e),
        Ok(name) => {
            &&& r is Ok
            &&& r->Ok_0.allocated_ip@ == ip
            &&& r->Ok_0.cert == cert
            &&& after.members@.len() == before.members@.len() + 1
            &&& after.members@.drop_last() == before.members@
            &&& after.members@.last().device_id == cert.device_id
            &&& after.members@.last().cert == cert
            &&& after.members@.last().joined_at == now
            &&& opt_view(after.members@.last().alias) == name
            &&& after.invites@ == used_up(before.invites@, i, now)
            &&& after == (MeshConfig {
                members: after.members,
                invites: after.invites,
                ..before
            })
        },
    }
}

/// A device with a good invitation gets an address, and asks for a certificate.
pub open spec fn join_addressed(
    before: MeshConfig,
    i: int,
    jb: JoinBody,
    ip: Seq<char>,
    now: u64,
    r: Result<JoinGrant, String>,
    after: MeshConfig,
) -> bool {
    exists|c: Result<DeviceCert, String>|
        {
            &&& #[trigger] cert_outcome(
                &before,
                i,
                jb.device_id@,
                jb.ik_x@,
                jb.ik_s_pub@,
                trimmed(ip),
                now,
                c,
            )
            &&& match c {
                Err(e) => join_refused(before, r, after, "签发证书失败: "@ + e@),
                Ok(cert) => join_granted(before, i, jb, ip, cert, now, r, after),
            }
        }
}

/// A device with a good invitation, the one at `i`, asks to join.
pub open spec fn join_invited(
    before: MeshConfig,
    i: int,
    jb: JoinBody,
    expected_id: Result<String, String>,
    now: u64,
    r: Result<JoinGrant, String>,
    after: MeshConfig,
) -> bool {
    match expected_id {
        Err(e) => join_refused(before, r, after, e@),
        Ok(id) => if jb.device_id@ != id@ {
            join_refused(before, r, after, "device_id 与设备双公钥不匹配"@)
        } else {
            exists|ip: Result<Seq<char>, Seq<char>>|
                {
                    &&& #[trigger] allocation(
                        &before,
                        i,
                        join_wish(before.invites@[i], jb),
                        ip,
                    )
                    &&& match ip {
                        Err(e) => join_refused(before, r, after, e),
                        Ok(ip) => join_addressed(before, i, jb, ip, now, r, after),
                    }
                }
        },
    }
}

/// The answer to a request to join, and what becomes of the mesh. `expected_id` is
/// the device id that follows from the two public keys in the request, or what is
/// wrong with them.
pub open spec fn join_answer(
    before: MeshConfig,
    rooms: Seq<RoomEntry>,
    jb: JoinBody,
    expected_id: Result<String, String>,
    now: u64,
    r: Result<JoinGrant, String>,
    after: MeshConfig,
) -> bool {
    let hash = code_digest(jb.code@);
    match room_of_token(rooms, opt_view(jb.token)) {
        Err(e) => join_refused(before, r, after, e),
        Ok(_) => if !any_invite(before.invites@, hash) {
            join_refused(before, r, after, "加入失败: "@ + "加入码无效（不存在）"@)
        } else {
            exists|i: int|
                {
                    &&& #[trigger] invite_at(before.invites@, hash, i)
                    &&& match invite_error(before.invites@[i], now) {
                        Some(e) => join_refused(before, r, after, "加入失败: "@ + e),
                        None => join_invited(before, i, jb, expected_id, now, r, after),
                    }
                }
        },
    }
}

/// Takes the steps into the mesh.
fn take_steps(
    mesh: &mut MeshConfig,
    rooms: &Vec<RoomEntry>,
    jb: &JoinBody,
    expected_id: &Result<String, String>,
    now: u64,
) -> (r: Result<JoinGrant, String>)
    requires
        old(mesh).members@.len() < u32::MAX,
        now + CERT_VALIDITY_SECS <= u64::MAX,
    ensures
        join_answer(*old(mesh), rooms@, *jb, *expected_id, now, r, *final(mesh)),
        r is Ok ==> old(mesh).seed() is Ok,
        final(mesh).root == old(mesh).root,
        final(mesh).crl == old(mesh).crl,
        old(mesh).wf() ==> final(mesh).wf(),
{
    if let Err(e) = resolve_room(rooms, opt_str(&jb.token)) {
        return Err(e);
    }
    let bound = match mesh.peek_invite(jb.code.as_str(), now) {
        Ok(ip) => ip,
        Err(e) => {
            let mut m = "加入失败: ".to_owned();
            m.append(e.as_str());
            return Err(m);
        },
    };
    let i: usize = match mesh.invite_index(jb.code.as_str()) {
        Some(i) => i,
        None => {
            return Err("加入失败: 加入码无效（不存在）".to_owned());
        },
    };
    match expected_id {
        Ok(id) => {
            if !same(jb.device_id.as_str(), id.as_str()) {
                return Err("device_id 与设备双公钥不匹配".to_owned());
            }
        },
        Err(e) => {
            return Err(e.clone());
        },
    }
    let wished: Option<&str> = match &bound {
        Some(ip) => Some(ip.as_str()),
        None => opt_str(&jb.requested_ip),
    };
    let allocated = mesh.allocate_for(wished, i);
    assert(allocation(
        mesh,
        i as int,
        join_wish(mesh.invites@[i as int], *jb),
        result_view(allocated),
    ));
    let ip = match allocated {
        Ok(ip) => ip,
        Err(e) => {
            return Err(e);
        },
    };
    let drafted = mesh.draft_cert(
        jb.ik_x.as_str(),
        jb.ik_s_pub.as_str(),
        Some(ip.as_str()),
        jb.device_id.as_str(),
        Some(i),
        now,
    );
    assert(cert_outcome(
        mesh,
        i as int,
        jb.device_id@,
        jb.ik_x@,
        jb.ik_s_pub@,
        trimmed(ip@),
        now,
        drafted,
    ));
    let cert = match drafted {
        Ok(c) => c,
        Err(e) => {
            let mut m = "签发证书失败: ".to_owned();
            m.append(e.as_str());
            let refusal: Result<JoinGrant, String> = Err(m);
            proof {
                lemma_join_steps(*mesh, i as int, *jb, *expected_id, now, ip@, drafted, refusal, *mesh);
            }
            return refusal;
        },
    };
    let name = match normalize_self_alias(opt_str(&jb.alias)) {
        Ok(n) => n,
        Err(e) => {
            let refusal: Result<JoinGrant, String> = Err(e);
            proof {
                lemma_join_steps(*mesh, i as int, *jb, *expected_id, now, ip@, drafted, refusal, *mesh);
            }
            return refusal;
        },
    };
    mesh.enroll(&cert, name, now);
    let _used = mesh.consume_invite(jb.code.as_str(), now);
    let granted: Result<JoinGrant, String> = Ok(JoinGrant { allocated_ip: ip, cert });
    proof {
        assert(mesh.members@.drop_last() =~= old(mesh).members@);
        lemma_join_steps(
            *old(mesh),
            i as int,
            *jb,
            *expected_id,
            now,
            ip@,
            drafted,
            granted,
            *mesh,
        );
    }
    granted
}

/// Lets a device into the mesh: its token, its invitation, its device id and its
/// name have to be in order, and there has to be an address for it. Only then is
/// the invitation used up.
pub fn join_mesh(
    mesh: &mut MeshConfig,
    rooms: &Vec<RoomEntry>,
    jb: &JoinBody,
    expected_id: &Result<String, String>,
    now: u64,
) -> (r: Result<JoinGrant, String>)
    requires
        old(mesh).members@.len() < u32::MAX,
        now + CERT_VALIDITY_SECS <= u64::MAX,
    ensures
        join_answer(*old(mesh), rooms@, *jb, *expected_id, now, r, *final(mesh)),
        r is Ok ==> old(mesh).seed() is Ok,
        final(mesh).root == old(mesh).root,
        final(mesh).crl == old(mesh).crl,
        old(mesh).wf() ==> final(mesh).wf(),
        forall|i: int|
            #[trigger] may_join(*old(mesh), rooms@, *jb, *expected_id, i, now) ==> is_let_in(
                *old(mesh),
                *jb,
                i,
                now,
                r,
                *final(mesh),
            ),
        r is Ok ==> exists|i: int|
            #[trigger] was_invited(*old(mesh), rooms@, *jb, *expected_id, i, now),
{
    let r = take_steps(mesh, rooms, jb, expected_id, now);
    proof {
        only_the_invited_join(*old(mesh), rooms@, *jb, *expected_id, now, r, *mesh);
        assert forall|i: int|
            #[trigger] may_join(*old(mesh), rooms@, *jb, *expected_id, i, now) implies is_let_in(
            *old(mesh),
            *jb,
            i,
            now,
            r,
            *mesh,
        ) by {
            a_device_with_an_invitation_joins(
                *old(mesh),
                rooms@,
                *jb,
                *expected_id,
                i,
                now,
                r,
                *mesh,
            );
        }
    }
    r
}

/// The steps into the mesh, put together.
proof fn lemma_join_steps(
    before: MeshConfig,
    i: int,
    jb: JoinBody,
    expected_id: Result<String, String>,
    now: u64,
    ip: Seq<char>,
    c: Result<DeviceCert, String>,
    r: Result<JoinGrant, String>,
    after: MeshConfig,
)
    requires
        expected_id is Ok,
        jb.device_id@ == expected_id->Ok_0@,
        allocation(&before, i, join_wish(before.invites@[i], jb), Ok(ip)),
        cert_outcome(
            &before,
            i,
            jb.device_id@,
            jb.ik_x@,
            jb.ik_s_pub@,
            trimmed(ip),
            now,
            c,
        ),
        match c {
            Err(e) => join_refused(before, r, after, "签发证书失败: "@ + e@),
            Ok(cert) => join_granted(before, i, jb, ip, cert, now, r, after),
        },
    ensures
        join_invited(before, i, jb, expected_id, now, r, after),
{
    let w: Result<Seq<char>, Seq<char>> = Ok(ip);
    assert(join_addressed(before, i, jb, ip, now, r, after));
    assert(allocation(&before, i, join_wish(before.invites@[i], jb), w));
}

/// A device that is refused costs nothing: the mesh stays as it was, and the
/// invitation can still be used.
pub proof fn a_refusal_changes_nothing(
    before: MeshConfig,
    rooms: Seq<RoomEntry>,
    jb: JoinBody,
    expected_id: Result<String, String>,
    now: u64,
    r: Result<JoinGrant, String>,
    after: MeshConfig,
)
    requires
        join_answer(before, rooms, jb, expected_id, now, r, after),
        r is Err,
    ensures
        after == before,
{
    let hash = code_digest(jb.code@);
    if room_of_token(rooms, opt_view(jb.token)) is Ok && any_invite(before.invites@, hash) {
        let i = choose|i: int|
            {
                &&& #[trigger] invite_at(before.invites@, hash, i)
                &&& match invite_error(before.invites@[i], now) {
                    Some(e) => join_refused(before, r, after, "加入失败: "@ + e),
                    None => join_invited(before, i, jb, expected_id, now, r, after),
                }
            };
        if invite_error(before.invites@[i], now) is None && expected_id is Ok && jb.device_id@
            == expected_id->Ok_0@ {
            let ip = choose|ip: Result<Seq<char>, Seq<char>>|
                {
                    &&& #[trigger] allocation(&before, i, join_wish(before.invites@[i], jb), ip)
                    &&& match ip {
                        Err(e) => join_refused(before, r, after, e),
                        Ok(ip) => join_addressed(before, i, jb, ip, now, r, after),
                    }
                };
        }
    }
}

/// With rooms in use, nobody joins without the token of one of them.
pub proof fn no_token_no_entry(
    before: MeshConfig,
    rooms: Seq<RoomEntry>,
    jb: JoinBody,
    expected_id: Result<String, String>,
    now: u64,
    r: Result<JoinGrant, String>,
    after: MeshConfig,
)
    requires
        join_answer(before, rooms, jb, expected_id, now, r, after),
        rooms.len() > 0,
        jb.token is None || room_lookup(rooms, token_digest(jb.token->0@)) is None,
    ensures
        r is Err,
        after == before,
{
}

/// The address that an invitation set aside goes to the device that comes in by
/// it, unless a member or another invitation has it already.
pub proof fn the_address_set_aside_is_given(
    mesh: MeshConfig,
    i: int,
    jb: JoinBody,
    ip: Seq<char>,
)
    requires
        mesh.invites@[i].ip is Some,
        trimmed(mesh.invites@[i].ip->0@).len() > 0,
        !held(mesh.members@, trimmed(mesh.invites@[i].ip->0@)),
        !set_aside(mesh.invites@, i, trimmed(mesh.invites@[i].ip->0@)),
        allocation(&mesh, i, join_wish(mesh.invites@[i], jb), Ok(ip)),
    ensures
        ip == trimmed(mesh.invites@[i].ip->0@),
{
}

} // verus!
