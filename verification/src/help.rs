//! What the programs say about their commands.
use vstd::prelude::*;
use vstd::string::*;
use crate::cli::Program;
use crate::text::{join2, join3, same, say, texts};

verus! {

/// The commands of the client, each with its description.
pub open spec fn client_commands() -> Seq<(Seq<char>, Seq<char>)> {
    seq![
        ("genkey"@, "--genkey：生成本机设备身份（X25519 + Ed25519 双密钥），写入 client.json"@),
        ("showpubkey"@, "--showpubkey：显示本机 X25519 公钥"@),
        ("fingerprint"@, "--fingerprint：显示本机设备指纹（base32，加入/验对端/吊销时比对）"@),
        ("join"@, "--join \"server\" \"vmnic\" --code LMJ-... [--token 房间令牌] [-y|-n]：加入服务器网格（TOFU 根指纹 → 换取设备证书）"@),
        ("newvmnic"@, "--newvmnic \"name\" [--ip x.x.x.x]：新建虚拟网卡（虚拟 IP 由服务端证书绑定，--ip 仅作占位）"@),
        ("delvmnic"@, "--delvmnic \"name\"：删除虚拟网卡（自动断开其上的连接）"@),
        ("newserver"@, "--newserver IP(:Port) \"name\"：新增/修改服务器；name 为空则删除"@),
        ("connect"@, "--connect \"server\" \"vmnic\" [--token 房间令牌] [-d]：连接服务器（默认占用终端并输出日志到控制台，加 -d 则后台运行）"@),
        ("disconnect"@, "--disconnect \"server\"：断开与指定服务器的连接"@),
        ("stop"@, "--stop：停止客户端守护进程并清理 connections[]"@),
        ("alias"@, "--alias \"名称\" \"虚拟IP\"：新增/更新本地别名（如 computer -> 10.13.13.5）；IP 与本机虚拟 IP 一致时会被自报给服务器"@),
        ("alias-del"@, "--alias-del \"名称\"：删除本地别名"@),
        ("alias-list"@, "--alias-list：查看本地别名表"@),
        ("resolve"@, "--resolve \"名称\"：经守护进程解析别名到虚拟 IP（可加 --dns-cache 查看已缓存映射）"@),
        ("list"@, "--list：列出已配置的服务器、虚拟网卡与连接"@),
        ("status"@, "--status [\"server\"]：查看连接实时状态"@),
        ("log"@, "--log [行数] [--follow]：查看运行日志"@),
        ("version"@, "--version：显示版本号"@),
        ("help"@, "--help [命令名]：显示帮助"@),
    ]
}

/// The commands of the server, each with its description.
pub open spec fn server_commands() -> Seq<(Seq<char>, Seq<char>)> {
    seq![
        ("start"@, "--start \"PORT\" [-d]：启动信令服务并监听指定端口（默认占用终端并输出日志到控制台，加 -d 则后台运行）"@),
        ("stop"@, "--stop：停止信令服务"@),
        ("genkey"@, "--genkey：生成服务端密钥对（已存在则报错），写入 server.json"@),
        ("showpubkey"@, "--showpubkey：显示服务端公钥"@),
        ("add-room"@, "--add-room \"房间名\" \"令牌\"：新增/更新房间令牌（分房间隔离；令牌只存哈希）"@),
        ("remove-room"@, "--remove-room \"房间名\"：删除房间令牌（删除后该房间设备无法再接入）"@),
        ("rooms"@, "--rooms：查看房间令牌列表（名称 + 哈希前缀）"@),
        ("alias"@, "--alias \"别名\" \"虚拟IP\"：绑定别名（如 computer -> 10.13.13.5，客户端可用 computer:8080 访问）"@),
        ("alias-del"@, "--alias-del \"别名\"：删除别名绑定"@),
        ("alias-list"@, "--alias-list：查看别名表"@),
        ("mesh-init"@, "--mesh-init：初始化网格根（生成 mesh.json，显示根指纹）"@),
        ("invite"@, "--invite [--ip x.x.x.x]：生成一次性加入码（10 分钟有效，可预绑定虚拟 IP）"@),
        ("issue"@, "--issue \"ik_x公钥\" \"ik_s公钥\" [--ip x.x.x.x]：离线签发设备证书（类似 authorized_keys 工作流）"@),
        ("revoke"@, "--revoke <device_id|ik_x> [--reason compromised|leaked|rotated|admin|discontinued]：吊销设备并强制下线"@),
        ("crl"@, "--crl：查看当前吊销列表"@),
        ("show-fingerprint"@, "--show-fingerprint：显示网格根指纹（加入时带外比对）"@),
        ("list"@, "--list：查看路由表（在线客户端公钥 / 虚拟 IP / Endpoint）"@),
        ("delpeer"@, "--delpeer \"public key\"：强制下线指定公钥的客户端"@),
        ("status"@, "--status：查看服务实时运行状态"@),
        ("log"@, "--log [行数] [--follow]：查看运行日志"@),
        ("version"@, "--version：显示版本号"@),
        ("help"@, "--help [命令名]：显示帮助"@),
    ]
}

/// The commands of a program.
pub open spec fn commands(program: Program) -> Seq<(Seq<char>, Seq<char>)> {
    match program {
        Program::Client => client_commands(),
        Program::Server => server_commands(),
    }
}

/// The characters of pairs of texts.
pub open spec fn pairs(v: Seq<(&'static str, &'static str)>) -> Seq<(Seq<char>, Seq<char>)> {
    v.map_values(|p: (&'static str, &'static str)| (p.0@, p.1@))
}

fn client_table() -> (r: Vec<(&'static str, &'static str)>)
    ensures
        pairs(r@) == client_commands(),
{
    let table: Vec<(&'static str, &'static str)> = vec![
        ("genkey", "--genkey：生成本机设备身份（X25519 + Ed25519 双密钥），写入 client.json"),
        ("showpubkey", "--showpubkey：显示本机 X25519 公钥"),
        ("fingerprint", "--fingerprint：显示本机设备指纹（base32，加入/验对端/吊销时比对）"),
        ("join", "--join \"server\" \"vmnic\" --code LMJ-... [--token 房间令牌] [-y|-n]：加入服务器网格（TOFU 根指纹 → 换取设备证书）"),
        ("newvmnic", "--newvmnic \"name\" [--ip x.x.x.x]：新建虚拟网卡（虚拟 IP 由服务端证书绑定，--ip 仅作占位）"),
        ("delvmnic", "--delvmnic \"name\"：删除虚拟网卡（自动断开其上的连接）"),
        ("newserver", "--newserver IP(:Port) \"name\"：新增/修改服务器；name 为空则删除"),
        ("connect", "--connect \"server\" \"vmnic\" [--token 房间令牌] [-d]：连接服务器（默认占用终端并输出日志到控制台，加 -d 则后台运行）"),
        ("disconnect", "--disconnect \"server\"：断开与指定服务器的连接"),
        ("stop", "--stop：停止客户端守护进程并清理 connections[]"),
        ("alias", "--alias \"名称\" \"虚拟IP\"：新增/更新本地别名（如 computer -> 10.13.13.5）；IP 与本机虚拟 IP 一致时会被自报给服务器"),
        ("alias-del", "--alias-del \"名称\"：删除本地别名"),
        ("alias-list", "--alias-list：查看本地别名表"),
        ("resolve", "--resolve \"名称\"：经守护进程解析别名到虚拟 IP（可加 --dns-cache 查看已缓存映射）"),
        ("list", "--list：列出已配置的服务器、虚拟网卡与连接"),
        ("status", "--status [\"server\"]：查看连接实时状态"),
        ("log", "--log [行数] [--follow]：查看运行日志"),
        ("version", "--version：显示版本号"),
        ("help", "--help [命令名]：显示帮助"),
    ];
    assert(pairs(table@) =~= client_commands());
    table
}

fn server_table() -> (r: Vec<(&'static str, &'static str)>)
    ensures
        pairs(r@) == server_commands(),
{
    let table: Vec<(&'static str, &'static str)> = vec![
        ("start", "--start \"PORT\" [-d]：启动信令服务并监听指定端口（默认占用终端并输出日志到控制台，加 -d 则后台运行）"),
        ("stop", "--stop：停止信令服务"),
        ("genkey", "--genkey：生成服务端密钥对（已存在则报错），写入 server.json"),
        ("showpubkey", "--showpubkey：显示服务端公钥"),
        ("add-room", "--add-room \"房间名\" \"令牌\"：新增/更新房间令牌（分房间隔离；令牌只存哈希）"),
        ("remove-room", "--remove-room \"房间名\"：删除房间令牌（删除后该房间设备无法再接入）"),
        ("rooms", "--rooms：查看房间令牌列表（名称 + 哈希前缀）"),
        ("alias", "--alias \"别名\" \"虚拟IP\"：绑定别名（如 computer -> 10.13.13.5，客户端可用 computer:8080 访问）"),
        ("alias-del", "--alias-del \"别名\"：删除别名绑定"),
        ("alias-list", "--alias-list：查看别名表"),
        ("mesh-init", "--mesh-init：初始化网格根（生成 mesh.json，显示根指纹）"),
        ("invite", "--invite [--ip x.x.x.x]：生成一次性加入码（10 分钟有效，可预绑定虚拟 IP）"),
        ("issue", "--issue \"ik_x公钥\" \"ik_s公钥\" [--ip x.x.x.x]：离线签发设备证书（类似 authorized_keys 工作流）"),
        ("revoke", "--revoke <device_id|ik_x> [--reason compromised|leaked|rotated|admin|discontinued]：吊销设备并强制下线"),
        ("crl", "--crl：查看当前吊销列表"),
        ("show-fingerprint", "--show-fingerprint：显示网格根指纹（加入时带外比对）"),
        ("list", "--list：查看路由表（在线客户端公钥 / 虚拟 IP / Endpoint）"),
        ("delpeer", "--delpeer \"public key\"：强制下线指定公钥的客户端"),
        ("status", "--status：查看服务实时运行状态"),
        ("log", "--log [行数] [--follow]：查看运行日志"),
        ("version", "--version：显示版本号"),
        ("help", "--help [命令名]：显示帮助"),
    ];
    assert(pairs(table@) =~= server_commands());
    table
}

/// What is said about one command.
pub open spec fn topic(table: Seq<(Seq<char>, Seq<char>)>, command: Seq<char>) -> Seq<char>
    decreases table.len(),
{
    if table.len() == 0 {
        "未知命令 "@ + command
    } else if table[0].0 == command {
        table[0].1
    } else {
        topic(table.drop_first(), command)
    }
}

/// The lines before the list of commands.
pub open spec fn introduction(program: Program, version: Seq<char>) -> Seq<Seq<char>> {
    match program {
        Program::Client => seq![
            "linkmesh-client "@ + version + " — NAT 穿透客户端（UDP 打洞 → 中继）"@,
            ""@,
            "用法: linkmesh-client [--config <路径>] [--quiet] <命令> [参数]"@,
            "     --join 支持 [-y|-n]：首次加入确认网格根指纹（TOFU）时默认信任/拒绝，适合 CI 脚本"@,
            ""@,
        ],
        Program::Server => seq![
            "linkmesh-server "@ + version + " — 中心化信令 + 中继服务"@,
            ""@,
            "用法: linkmesh-server [--config <路径>] [--quiet] <命令> [参数]"@,
            ""@,
        ],
    }
}

/// The lines after the list of commands.
pub open spec fn closing(program: Program) -> Seq<Seq<char>> {
    match program {
        Program::Client => seq![""@, "配置文件默认 ./client.json，所有命令都会读写它。"@],
        Program::Server => seq![""@, "配置文件默认 ./server.json，所有命令都会读写它。"@],
    }
}

/// The list of commands.
pub open spec fn listing(table: Seq<(Seq<char>, Seq<char>)>) -> Seq<Seq<char>> {
    table.map_values(|e: (Seq<char>, Seq<char>)| "    "@ + e.1)
}

/// The help on one command, or on all of them.
pub open spec fn help(program: Program, version: Seq<char>, command: Option<&str>) -> Seq<Seq<char>> {
    match command {
        Some(c) => seq![topic(commands(program), c@)],
        None => introduction(program, version) + listing(commands(program)) + closing(program),
    }
}

fn topic_line(table: &Vec<(&'static str, &'static str)>, command: &str) -> (r: String)
    ensures
        r@ == topic(pairs(table@), command@),
{
    let ghost all = pairs(table@);
    let mut i: usize = 0;
    assert(all.skip(0) =~= all);
    while i < table.len()
        invariant
            i <= table@.len(),
            all == pairs(table@),
            topic(all, command@) == topic(all.skip(i as int), command@),
        decreases table@.len() - i,
    {
        assert(all.skip(i as int)[0] == (table@[i as int].0@, table@[i as int].1@));
        if same(table[i].0, command) {
            return table[i].1.to_owned();
        }
        assert(all.skip(i as int).drop_first() =~= all.skip(i + 1));
        i = i + 1;
    }
    assert(all.skip(i as int).len() == 0);
    join2("未知命令 ", command)
}

fn introduce(program: Program, version: &str) -> (r: Vec<String>)
    ensures
        texts(r@) == introduction(program, version@),
{
    let mut out: Vec<String> = Vec::new();
    match program {
        Program::Client => {
            say(&mut out, join3("linkmesh-client ", version, " — NAT 穿透客户端（UDP 打洞 → 中继）"));
            say(&mut out, "".to_owned());
            say(
                &mut out,
                "用法: linkmesh-client [--config <路径>] [--quiet] <命令> [参数]".to_owned(),
            );
            say(
                &mut out,
                "     --join 支持 [-y|-n]：首次加入确认网格根指纹（TOFU）时默认信任/拒绝，适合 CI 脚本".to_owned(),
            );
            say(&mut out, "".to_owned());
        },
        Program::Server => {
            say(&mut out, join3("linkmesh-server ", version, " — 中心化信令 + 中继服务"));
            say(&mut out, "".to_owned());
            say(
                &mut out,
                "用法: linkmesh-server [--config <路径>] [--quiet] <命令> [参数]".to_owned(),
            );
            say(&mut out, "".to_owned());
        },
    }
    assert(texts(out@) =~= introduction(program, version@));
    out
}

/// The help on one command, or on all of them, line by line.
pub fn help_lines(program: Program, version: &str, command: Option<&str>) -> (r: Vec<String>)
    ensures
        texts(r@) == help(program, version@, command),
{
    let table = match program {
        Program::Client => client_table(),
        Program::Server => server_table(),
    };
    match command {
        Some(c) => {
            let mut out: Vec<String> = Vec::new();
            say(&mut out, topic_line(&table, c));
            assert(texts(out@) =~= help(program, version@, command));
            out
        },
        None => {
            let mut out = introduce(program, version);
            let ghost all = commands(program);
            let mut i: usize = 0;
            assert(texts(out@) =~= introduction(program, version@) + listing(all.take(0)));
            while i < table.len()
                invariant
                    i <= table@.len(),
                    all == pairs(table@),
                    texts(out@) == introduction(program, version@) + listing(all.take(i as int)),
                decreases table@.len() - i,
            {
                say(&mut out, join2("    ", table[i].1));
                assert(texts(out@) =~= introduction(program, version@) + listing(all.take(i + 1)));
                i = i + 1;
            }
            assert(all.take(all.len() as int) =~= all);
            say(&mut out, "".to_owned());
            match program {
                Program::Client => {
                    say(&mut out, "配置文件默认 ./client.json，所有命令都会读写它。".to_owned());
                },
                Program::Server => {
                    say(&mut out, "配置文件默认 ./server.json，所有命令都会读写它。".to_owned());
                },
            }
            assert(texts(out@) =~= help(program, version@, command));
            out
        },
    }
}

} // verus!
