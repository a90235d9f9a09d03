//! Joining a mesh: what is asked of the server, whom to trust, and what is kept.
use vstd::prelude::*;
use vstd::string::*;
use crate::cert::{copy_text, DeviceCert};
use crate::client::commands::given_token;
use crate::client::config::{
    has_nic, has_server, nic_at, no_identity, server_at, ClientConfig, ServerEntry, VmNicConfig,
};
use crate::outside::{base64_chars, base64_encode, reads_as};
use crate::protocol::{JoinBody, ResponseBody, ResponseData};
use crate::text::{join3, same, trim};

verus! {

/// Why a device may not ask to join.
pub open spec fn join_request_error(cfg: ClientConfig, server: Seq<char>, nic: Seq<char>) -> Option<
    Seq<char>,
> {
    if !has_nic(cfg.vm_nics@, nic) {
        Some("虚拟网卡 "@ + nic + " 未配置，请先 --newvmnic"@)
    } else if cfg.identity is None {
        Some("尚未生成设备身份，请先执行 --genkey"@)
    } else if !has_server(cfg.servers@, server) {
        Some("服务器 "@ + server + " 未配置"@)
    } else if holds_cert(cfg.servers@, server) {
        Some("已加入服务器 "@ + server + " 的网格，无需重复加入"@)
    } else {
        None
    }
}

/// Whether the first server with a name has issued a certificate.
pub open spec fn holds_cert(servers: Seq<ServerEntry>, name: Seq<char>) -> bool {
    exists|i: int| #[trigger] server_at(servers, name, i) && servers[i].device_cert is Some
}

/// Checks whether the device may ask to join.
pub fn join_check(cfg: &ClientConfig, server: &str, nic: &str) -> (r: Result<(), String>)
    ensures
        match r {
            Ok(_) => join_request_error(*cfg, server@, nic@) is None,
            Err(e) => join_request_error(*cfg, server@, nic@) == Some(e@),
        },
{
    match cfg.find_vmnic(nic) {
        Some(n) => {
            proof {
                let k = choose|k: int|
                    #[trigger] nic_at(cfg.vm_nics@, nic@, k) && *n == cfg.vm_nics@[k];
                assert(cfg.vm_nics@[k].name@ == nic@);
            }
        },
        None => {
            return Err(join3("虚拟网卡 ", nic, " 未配置，请先 --newvmnic"));
        },
    }
    if cfg.identity.is_none() {
        return Err("尚未生成设备身份，请先执行 --genkey".to_owned());
    }
    match cfg.server_index(server) {
        Some(i) => {
            proof {
                assert(cfg.servers@[i as int].name@ == server@);
                assert forall|k: int| server_at(cfg.servers@, server@, k) implies k == i by {
                    if k < i {
                        assert(cfg.servers@[k].name@ != server@);
                    }
                    if k > i {
                        assert(cfg.servers@[i as int].name@ != server@);
                    }
                }
            }
            if cfg.servers[i].is_joined() {
                return Err(join3("已加入服务器 ", server, " 的网格，无需重复加入"));
            }
            Ok(())
        },
        None => Err(join3("服务器 ", server, " 未配置")),
    }
}

/// The token to join with: the given one, else the saved one.
pub open spec fn join_token(given: Option<&str>, saved: Option<String>) -> Option<Seq<char>> {
    match given_token(given) {
        Some(t) => Some(t),
        None => match saved {
            Some(t) => Some(t@),
            None => None,
        },
    }
}

pub fn choose_token(given: Option<&str>, entry: &ServerEntry) -> (r: Option<String>)
    ensures
        match (r, join_token(given, entry.token)) {
            (Some(a), Some(b)) => a@ == b,
            (None, None) => true,
            _ => false,
        },
{
    if let Some(t) = given {
        let c = trim(t);
        if !c.is_empty() {
            return Some(c.to_owned());
        }
    }
    copy_text(&entry.token)
}

/// Decides on the mesh root that a server shows. `trusted` is what was answered to the
/// question whether to trust it, `pinned` the root that was trusted before.
pub fn check_root(server: &str, trusted: bool, pinned: Option<&str>, shown: &str) -> (r: Result<
    (),
    String,
>)
    ensures
        root_checked(server@, trusted, pinned, shown@, r),
{
    if !trusted {
        return Err(join3("已拒绝信任网格 ", server, " 的根指纹，未加入"));
    }
    if let Some(p) = pinned {
        if !same(p, shown) {
            return Err(
                "服务器出示的网格根与本地已固定的根不一致（可能换了网格或存在中间人）".to_owned(),
            );
        }
    }
    Ok(())
}

/// The virtual address of an interface; none where there is no such interface.
pub open spec fn nic_ip(nics: Seq<VmNicConfig>, nic: Seq<char>, ip: Seq<char>) -> bool {
    if has_nic(nics, nic) {
        exists|i: int| #[trigger] nic_at(nics, nic, i) && ip == nics[i].ip@
    } else {
        ip.len() == 0
    }
}

/// What a device asks with to join.
pub open spec fn joins_with(
    cfg: ClientConfig,
    nic: Seq<char>,
    code: Seq<char>,
    token: Option<String>,
    r: Result<JoinBody, String>,
) -> bool {
    match (cfg.identity, r) {
        (Some(id), Ok(jb)) => {
            &&& jb.code@ == code
            &&& jb.device_id == id.device_id
            &&& jb.ik_x@ == base64_chars(id.ik_x.public@)
            &&& reads_as(jb.ik_x@, id.ik_x.public@)
            &&& jb.ik_s_pub == id.ik_s.public
            &&& jb.requested_ip is None
            &&& jb.token == token
            &&& exists|ip: Seq<char>|
                {
                    &&& #[trigger] nic_ip(cfg.vm_nics@, nic, ip)
                    &&& match jb.alias {
                        Some(n) => exists|i: int|
                            #[trigger] cfg.aliases.first_for(ip, i) && n@
                                == cfg.aliases.names()[i],
                        None => !cfg.aliases.ips().contains(ip),
                    }
                }
        },
        (None, Err(e)) => e@ == no_identity(),
        _ => false,
    }
}

/// What a device asks with to join.
pub fn join_body(cfg: &ClientConfig, nic: &str, code: &str, token: Option<String>) -> (r: Result<
    JoinBody,
    String,
>)
    requires
        cfg.aliases.wf(),
    ensures
        joins_with(*cfg, nic@, code@, token, r),
{
    match &cfg.identity {
        Some(id) => {
            let ip = match cfg.find_vmnic(nic) {
                Some(n) => {
                    proof {
                        let k = choose|k: int|
                            #[trigger] nic_at(cfg.vm_nics@, nic@, k) && *n == cfg.vm_nics@[k];
                        assert(cfg.vm_nics@[k].name@ == nic@);
                    }
                    n.ip.clone()
                },
                None => String::new(),
            };
            assert(nic_ip(cfg.vm_nics@, nic@, ip@));
            Ok(
                JoinBody {
                    code: code.to_owned(),
                    device_id: id.device_id.clone(),
                    ik_x: base64_encode(id.ik_x.public.as_slice()),
                    ik_s_pub: id.ik_s.public.clone(),
                    requested_ip: None,
                    token,
                    alias: cfg.aliases.name_for(ip.as_str()),
                },
            )
        },
        None => Err("尚未生成设备身份（identity），请先执行 --genkey".to_owned()),
    }
}

/// What the server's answer to a request to join comes to: an address and a
/// certificate, or why there is none.
pub fn join_result(resp: &ResponseBody) -> (r: Result<(String, DeviceCert), String>)
    ensures
        join_read(*resp, r),
{
    if !resp.ok {
        return match &resp.error {
            Some(e) => Err(e.clone()),
            None => Err("加入失败".to_owned()),
        };
    }
    match &resp.data {
        ResponseData::Join { device_id: _, allocated_ip, cert, server_info: _, crl: _ } => Ok(
            (allocated_ip.clone(), cert.copy()),
        ),
        _ => Err("加入响应缺少证书".to_owned()),
    }
}

/// A list of servers after the mesh of one was joined.
pub open spec fn mesh_joined(
    before: Seq<ServerEntry>,
    after: Seq<ServerEntry>,
    server: Seq<char>,
    root: Seq<char>,
    server_key: Seq<char>,
    crl_version: u64,
    cert: DeviceCert,
    token: Option<String>,
) -> bool {
    &&& after.len() == before.len()
    &&& forall|i: int|
        #![trigger after[i]]
        0 <= i < before.len() ==> if server_at(before, server, i) {
            &&& after[i].mesh_root_pub is Some && after[i].mesh_root_pub->0@ == root
            &&& after[i].public_key is Some && after[i].public_key->0@ == server_key
            &&& after[i] == (ServerEntry {
                mesh_root_pub: after[i].mesh_root_pub,
                device_cert: Some(cert),
                public_key: after[i].public_key,
                crl_version: Some(crl_version),
                token: match token {
                    Some(t) => Some(t),
                    None => before[i].token,
                },
                ..before[i]
            })
        } else {
            after[i] == before[i]
        }
}

/// A list of interfaces after one got an address.
pub open spec fn nic_addressed(
    before: Seq<VmNicConfig>,
    after: Seq<VmNicConfig>,
    nic: Seq<char>,
    ip: Seq<char>,
) -> bool {
    &&& after.len() == before.len()
    &&& forall|i: int|
        #![trigger after[i]]
        0 <= i < before.len() ==> if nic_at(before, nic, i) {
            after[i].ip@ == ip && after[i] == (VmNicConfig { ip: after[i].ip, ..before[i] })
        } else {
            after[i] == before[i]
        }
}

/// Keeps what came of joining: the trusted root, the server's key, the certificate and
/// the address.
pub fn accept_join(
    cfg: &mut ClientConfig,
    server: &str,
    nic: &str,
    root: &str,
    server_key: &str,
    crl_version: u64,
    cert: DeviceCert,
    ip: &str,
    token: Option<String>,
)
    ensures
        mesh_joined(
            old(cfg).servers@,
            final(cfg).servers@,
            server@,
            root@,
            server_key@,
            crl_version,
            cert,
            token,
        ),
        nic_addressed(old(cfg).vm_nics@, final(cfg).vm_nics@, nic@, ip@),
        *final(cfg) == (ClientConfig {
            servers: final(cfg).servers,
            vm_nics: final(cfg).vm_nics,
            ..*old(cfg)
        }),
{
    match cfg.server_index(server) {
        Some(i) => {
            cfg.servers[i].mesh_root_pub = Some(root.to_owned());
            cfg.servers[i].device_cert = Some(cert);
            cfg.servers[i].public_key = Some(server_key.to_owned());
            cfg.servers[i].crl_version = Some(crl_version);
            if let Some(t) = token {
                cfg.servers[i].token = Some(t);
            }
            proof {
                assert forall|k: int| server_at(old(cfg).servers@, server@, k) implies k == i by {
                    if k < i {
                        assert(old(cfg).servers@[k].name@ != server@);
                    }
                    if k > i {
                        assert(old(cfg).servers@[i as int].name@ != server@);
                    }
                }
            }
        },
        None => {
            proof {
                assert forall|k: int| !server_at(old(cfg).servers@, server@, k) by {
                    if server_at(old(cfg).servers@, server@, k) {
                        assert(old(cfg).servers@[k].name@ == server@);
                    }
                }
            }
        },
    }
    let mut k: usize = 0;
    let ghost nics = cfg.vm_nics@;
    while k < cfg.vm_nics.len()
        invariant
            cfg.vm_nics@ == nics,
            nics == old(cfg).vm_nics@,
            k <= nics.len(),
            forall|j: int| 0 <= j < k ==> (#[trigger] nics[j]).name@ != nic@,
            *cfg == (ClientConfig { servers: cfg.servers, ..*old(cfg) }),
            mesh_joined(
                old(cfg).servers@,
                cfg.servers@,
                server@,
                root@,
                server_key@,
                crl_version,
                cert,
                token,
            ),
        decreases nics.len() - k,
    {
        if same(cfg.vm_nics[k].name.as_str(), nic) {
            cfg.vm_nics[k].ip = ip.to_owned();
            proof {
                assert(nic_at(nics, nic@, k as int));
                assert forall|j: int| nic_at(nics, nic@, j) implies j == k by {
                    if j < k {
                        assert(nics[j].name@ != nic@);
                    }
                    if j > k {
                        assert(nics[k as int].name@ != nic@);
                    }
                }
            }
            return;
        }
        k = k + 1;
    }
    proof {
        assert forall|j: int| !nic_at(nics, nic@, j) by {
            if nic_at(nics, nic@, j) {
                assert(nics[j].name@ == nic@);
            }
        }
    }
}

/// What was decided on the mesh root that a server shows.
pub open spec fn root_checked(
    server: Seq<char>,
    trusted: bool,
    pinned: Option<&str>,
    shown: Seq<char>,
    r: Result<(), String>,
) -> bool {
    if !trusted {
        r is Err && r->Err_0@ == "已拒绝信任网格 "@ + server + " 的根指纹，未加入"@
    } else if pinned is Some && pinned->0@ != shown {
        r is Err && r->Err_0@
            == "服务器出示的网格根与本地已固定的根不一致（可能换了网格或存在中间人）"@
    } else {
        r is Ok
    }
}

/// What the answer to a request to join brings.
pub open spec fn join_read(resp: ResponseBody, r: Result<(String, DeviceCert), String>) -> bool {
    if !resp.ok {
        r is Err && r->Err_0@ == (match resp.error {
            Some(e) => e@,
            None => "加入失败"@,
        })
    } else {
        match resp.data {
            ResponseData::Join { device_id, allocated_ip, cert, server_info, crl } => r is Ok
                && r->Ok_0 == (allocated_ip, cert),
            _ => r is Err && r->Err_0@ == "加入响应缺少证书"@,
        }
    }
}

} // verus!
