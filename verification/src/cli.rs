//! The command line of client and server.
use vstd::prelude::*;
use vstd::string::*;
use crate::protocol::opt_view;
use crate::text::{join3, parse_number, parsed_number, same, texts};

verus! {

/// Which program is started.
#[derive(Debug, Clone, Copy, PartialEq, Eq, Structural)]
pub enum Program {
    Client,
    Server,
}

/// What a command line says.
pub struct Args {
    pub command: Option<String>,
    pub positionals: Vec<String>,
    pub config_path: String,
    pub quiet: bool,
    pub follow: bool,
    pub detail: bool,
    pub ip: Option<String>,
    /// Whether an unknown mesh root is trusted, where that is not to be asked.
    pub trust: Option<bool>,
    pub code: Option<String>,
    pub token: Option<String>,
    pub reason: Option<String>,
}

/// The meaning of [`Args`].
pub struct ArgsView {
    pub command: Option<Seq<char>>,
    pub positionals: Seq<Seq<char>>,
    pub config_path: Seq<char>,
    pub quiet: bool,
    pub follow: bool,
    pub detail: bool,
    pub ip: Option<Seq<char>>,
    pub trust: Option<bool>,
    pub code: Option<Seq<char>>,
    pub token: Option<Seq<char>>,
    pub reason: Option<Seq<char>>,
}

impl View for Args {
    type V = ArgsView;

    open spec fn view(&self) -> ArgsView {
        ArgsView {
            command: opt_view(self.command),
            positionals: texts(self.positionals@),
            config_path: self.config_path@,
            quiet: self.quiet,
            follow: self.follow,
            detail: self.detail,
            ip: opt_view(self.ip),
            trust: self.trust,
            code: opt_view(self.code),
            token: opt_view(self.token),
            reason: opt_view(self.reason),
        }
    }
}

/// What an argument is.
#[derive(Debug, Clone, Copy, PartialEq, Eq, Structural)]
pub enum Flag {
    Config,
    Quiet,
    Follow,
    Ip,
    Code,
    Token,
    Reason,
    Detail,
    Yes,
    No,
    /// Runs the service itself.
    Run,
    /// Starts with two dashes.
    Dashes,
    Plain,
}

pub open spec fn has_dashes(a: Seq<char>) -> bool {
    a.len() >= 2 && a[0] == '-' && a[1] == '-'
}

/// What an argument is to a program.
pub open spec fn flag_of(program: Program, a: Seq<char>) -> Flag {
    let client = program == Program::Client;
    if a == "--config"@ {
        Flag::Config
    } else if a == "--quiet"@ {
        Flag::Quiet
    } else if a == "--follow"@ {
        Flag::Follow
    } else if a == "--ip"@ {
        Flag::Ip
    } else if client && a == "--code"@ {
        Flag::Code
    } else if client && a == "--token"@ {
        Flag::Token
    } else if !client && a == "--reason"@ {
        Flag::Reason
    } else if a == "-d"@ || a == "--detail"@ {
        Flag::Detail
    } else if client && (a == "-y"@ || a == "--yes"@) {
        Flag::Yes
    } else if client && (a == "-n"@ || a == "--no"@) {
        Flag::No
    } else if a == "--run"@ {
        Flag::Run
    } else if has_dashes(a) {
        Flag::Dashes
    } else {
        Flag::Plain
    }
}

fn classify(program: Program, a: &str) -> (r: Flag)
    ensures
        r == flag_of(program, a@),
{
    let client = program == Program::Client;
    if same(a, "--config") {
        return Flag::Config;
    }
    if same(a, "--quiet") {
        return Flag::Quiet;
    }
    if same(a, "--follow") {
        return Flag::Follow;
    }
    if same(a, "--ip") {
        return Flag::Ip;
    }
    if client && same(a, "--code") {
        return Flag::Code;
    }
    if client && same(a, "--token") {
        return Flag::Token;
    }
    if !client && same(a, "--reason") {
        return Flag::Reason;
    }
    if same(a, "-d") || same(a, "--detail") {
        return Flag::Detail;
    }
    if client && (same(a, "-y") || same(a, "--yes")) {
        return Flag::Yes;
    }
    if client && (same(a, "-n") || same(a, "--no")) {
        return Flag::No;
    }
    if same(a, "--run") {
        return Flag::Run;
    }
    if a.unicode_len() >= 2 && a.get_char(0) == '-' && a.get_char(1) == '-' {
        return Flag::Dashes;
    }
    Flag::Plain
}

/// Whether the argument behind a flag belongs to it.
pub open spec fn takes_value(f: Flag) -> bool {
    f == Flag::Config || f == Flag::Ip || f == Flag::Code || f == Flag::Token || f == Flag::Reason
}

/// What was read so far, with the value of a flag.
pub open spec fn with_value(st: ArgsView, f: Flag, v: Seq<char>) -> ArgsView {
    match f {
        Flag::Config => ArgsView { config_path: v, ..st },
        Flag::Ip => ArgsView { ip: Some(v), ..st },
        Flag::Code => ArgsView { code: Some(v), ..st },
        Flag::Token => ArgsView { token: Some(v), ..st },
        Flag::Reason => ArgsView { reason: Some(v), ..st },
        _ => st,
    }
}

/// What was read so far, with an argument that takes no value. Yes and no exclude
/// each other.
pub open spec fn with_argument(st: ArgsView, f: Flag, a: Seq<char>) -> Option<ArgsView> {
    match f {
        Flag::Quiet => Some(ArgsView { quiet: true, ..st }),
        Flag::Follow => Some(ArgsView { follow: true, ..st }),
        Flag::Detail => Some(ArgsView { detail: true, ..st }),
        Flag::Yes => if st.trust == Some(false) {
            None
        } else {
            Some(ArgsView { trust: Some(true), ..st })
        },
        Flag::No => if st.trust == Some(true) {
            None
        } else {
            Some(ArgsView { trust: Some(false), ..st })
        },
        Flag::Run => Some(ArgsView { command: Some("run"@), ..st }),
        Flag::Dashes => if st.command is None {
            Some(ArgsView { command: Some(a.skip(2)), ..st })
        } else {
            Some(ArgsView { positionals: st.positionals.push(a), ..st })
        },
        _ => Some(ArgsView { positionals: st.positionals.push(a), ..st }),
    }
}

/// What the arguments from `i` on make of what was read so far.
pub open spec fn read_from(
    program: Program,
    args: Seq<Seq<char>>,
    i: int,
    st: ArgsView,
) -> Option<ArgsView>
    decreases args.len() - i,
{
    if i < 0 || i >= args.len() {
        Some(st)
    } else {
        let f = flag_of(program, args[i]);
        if takes_value(f) {
            if i + 1 < args.len() {
                read_from(program, args, i + 2, with_value(st, f, args[i + 1]))
            } else {
                Some(st)
            }
        } else {
            match with_argument(st, f, args[i]) {
                Some(next) => read_from(program, args, i + 1, next),
                None => None,
            }
        }
    }
}

/// What is known before any argument was read.
pub open spec fn no_args(program: Program) -> ArgsView {
    ArgsView {
        command: None,
        positionals: Seq::empty(),
        config_path: if program == Program::Client {
            "client.json"@
        } else {
            "server.json"@
        },
        quiet: false,
        follow: false,
        detail: false,
        ip: None,
        trust: None,
        code: None,
        token: None,
        reason: None,
    }
}

/// Reads a command line, without the name of the program. The first argument that
/// starts with two dashes and is no flag is the command, unless the service itself is to
/// run: that is the command wherever it stands.
pub fn parse_args(program: Program, args: &Vec<String>) -> (r: Result<Args, String>)
    ensures
        match r {
            Ok(a) => read_from(program, texts(args@), 0, no_args(program)) == Some(a@),
            Err(e) => {
                &&& read_from(program, texts(args@), 0, no_args(program)) is None
                &&& e@ == "不能同时指定 -y 与 -n"@
            },
        },
{
    let mut st = Args {
        command: None,
        positionals: Vec::new(),
        config_path: if program == Program::Client {
            "client.json".to_owned()
        } else {
            "server.json".to_owned()
        },
        quiet: false,
        follow: false,
        detail: false,
        ip: None,
        trust: None,
        code: None,
        token: None,
        reason: None,
    };
    let ghost all = texts(args@);
    assert(texts(st.positionals@) =~= Seq::<Seq<char>>::empty());
    let mut i: usize = 0;
    while i < args.len()
        invariant
            i <= args@.len(),
            all == texts(args@),
            read_from(program, all, 0, no_args(program)) == read_from(program, all, i as int, st@),
        decreases args@.len() - i,
    {
        let ghost before = st@;
        let f = classify(program, args[i].as_str());
        assert(all[i as int] == args@[i as int]@);
        match f {
            Flag::Config | Flag::Ip | Flag::Code | Flag::Token | Flag::Reason => {
                if i + 1 >= args.len() {
                    return Ok(st);
                }
                let v = args[i + 1].clone();
                assert(all[i + 1] == v@);
                match f {
                    Flag::Config => {
                        st.config_path = v;
                    },
                    Flag::Ip => {
                        st.ip = Some(v);
                    },
                    Flag::Code => {
                        st.code = Some(v);
                    },
                    Flag::Token => {
                        st.token = Some(v);
                    },
                    _ => {
                        st.reason = Some(v);
                    },
                }
                assert(st@ == with_value(before, f, all[i + 1]));
                i = i + 2;
            },
            Flag::Quiet => {
                st.quiet = true;
                i = i + 1;
            },
            Flag::Follow => {
                st.follow = true;
                i = i + 1;
            },
            Flag::Detail => {
                st.detail = true;
                i = i + 1;
            },
            Flag::Yes => {
                if st.trust == Some(false) {
                    return Err("不能同时指定 -y 与 -n".to_owned());
                }
                st.trust = Some(true);
                i = i + 1;
            },
            Flag::No => {
                if st.trust == Some(true) {
                    return Err("不能同时指定 -y 与 -n".to_owned());
                }
                st.trust = Some(false);
                i = i + 1;
            },
            Flag::Run => {
                st.command = Some("run".to_owned());
                i = i + 1;
            },
            _ => {
                if f == Flag::Dashes && st.command.is_none() {
                    let n: usize = args[i].as_str().unicode_len();
                    let c = args[i].as_str().substring_char(2, n).to_owned();
                    assert(c@ =~= all[i as int].skip(2));
                    st.command = Some(c);
                } else {
                    let ghost p = st.positionals@;
                    st.positionals.push(args[i].clone());
                    assert(texts(st.positionals@) =~= texts(p).push(all[i as int]));
                }
                i = i + 1;
            },
        }
    }
    Ok(st)
}

/// The argument at a position, or a complaint that it is missing.
pub fn required(positionals: &Vec<String>, i: usize, missing: &str) -> (r: Result<String, String>)
    ensures
        if i < positionals@.len() {
            r is Ok && r->Ok_0 == positionals@[i as int]
        } else {
            r is Err && r->Err_0@ == missing@
        },
{
    if i < positionals.len() {
        Ok(positionals[i].clone())
    } else {
        Err(missing.to_owned())
    }
}

/// The argument at a position, where there is one.
pub open spec fn opt_at(pos: Seq<String>, i: int) -> Option<String> {
    if 0 <= i < pos.len() {
        Some(pos[i])
    } else {
        None
    }
}

/// The argument at a position, where there is one.
pub fn optional(positionals: &Vec<String>, i: usize) -> (r: Option<String>)
    ensures
        r == opt_at(positionals@, i as int),
{
    if i < positionals.len() {
        Some(positionals[i].clone())
    } else {
        None
    }
}

/// How many lines of the log to show: fifty where no number is given.
pub open spec fn lines_of(given: Option<String>) -> usize {
    match given {
        Some(t) => match parsed_number(t@, usize::MAX as nat) {
            Some(n) => n as usize,
            None => 50usize,
        },
        None => 50usize,
    }
}

/// How many lines of the log to show.
pub fn log_lines(given: &Option<String>) -> (r: usize)
    ensures
        r == lines_of(*given),
{
    match given {
        Some(t) => match parse_number(t.as_str(), usize::MAX as u64) {
            Some(n) => n as usize,
            None => 50,
        },
        None => 50,
    }
}

/// The arguments that the program in the background is started with. Unless it is to
/// stay in the background, it also shows its log.
pub open spec fn daemon_args(detail: bool, config_path: Seq<char>) -> Seq<Seq<char>> {
    if detail {
        seq!["--run"@, "--config"@, config_path]
    } else {
        seq!["--log"@, "-1"@, "--follow"@, "--run"@, "--config"@, config_path]
    }
}

/// The arguments that the program in the background is started with.
pub fn run_args(detail: bool, config_path: &str) -> (r: Vec<String>)
    ensures
        texts(r@) == daemon_args(detail, config_path@),
{
    let mut r: Vec<String> = Vec::new();
    if !detail {
        r.push("--log".to_owned());
        r.push("-1".to_owned());
        r.push("--follow".to_owned());
    }
    r.push("--run".to_owned());
    r.push("--config".to_owned());
    r.push(config_path.to_owned());
    assert(texts(r@) =~= daemon_args(detail, config_path@));
    r
}

proof fn lemma_started_with(
    program: Program,
    args: Seq<Seq<char>>,
    i: int,
    st: ArgsView,
    path: Seq<char>,
)
    requires
        0 <= i,
        args.len() == i + 3,
        args[i] == "--run"@,
        args[i + 1] == "--config"@,
        args[i + 2] == path,
    ensures
        read_from(program, args, i, st) == Some(
            ArgsView { command: Some("run"@), config_path: path, ..st },
        ),
{
    lemma_words();
    let next = ArgsView { command: Some("run"@), ..st };
    assert(with_argument(st, Flag::Run, args[i]) == Some(next));
    assert(read_from(program, args, i + 3, with_value(next, Flag::Config, path)) == Some(
        with_value(next, Flag::Config, path),
    ));
    assert(read_from(program, args, i + 1, next) == Some(with_value(next, Flag::Config, path)));
}

proof fn lemma_words()
    ensures
        forall|p: Program| #[trigger] flag_of(p, "--run"@) == Flag::Run,
        forall|p: Program| #[trigger] flag_of(p, "--config"@) == Flag::Config,
        forall|p: Program| #[trigger] flag_of(p, "--follow"@) == Flag::Follow,
        forall|p: Program| #[trigger] flag_of(p, "--log"@) == Flag::Dashes,
        forall|p: Program| #[trigger] flag_of(p, "-1"@) == Flag::Plain,
        "--log"@.skip(2) == "log"@,
{
    reveal_strlit("--run");
    reveal_strlit("--config");
    reveal_strlit("--follow");
    reveal_strlit("--log");
    reveal_strlit("log");
    reveal_strlit("-1");
    reveal_strlit("--quiet");
    reveal_strlit("--ip");
    reveal_strlit("--code");
    reveal_strlit("--token");
    reveal_strlit("--reason");
    reveal_strlit("-d");
    reveal_strlit("--detail");
    reveal_strlit("-y");
    reveal_strlit("--yes");
    reveal_strlit("-n");
    reveal_strlit("--no");
    assert("--log"@.skip(2) =~= "log"@);
    assert("--log"@[2] != "--run"@[2] && "--log"@[2] != "--yes"@[2]);
    assert("--run"@[2] != "--yes"@[2]);
    assert("--run"@.len() == 5 && "--ip"@.len() == 4 && "--no"@.len() == 4);
    assert("--code"@.len() == 6 && "--token"@.len() == 7 && "--quiet"@.len() == 7);
    assert("--follow"@[2] != "--config"@[2]);
    assert("-1"@[1] != "-d"@[1] && "-1"@[1] != "-y"@[1] && "-1"@[1] != "-n"@[1]);
}

/// Whether it is to stay in the background or to show its log, a program that is started
/// with the arguments for it runs the service, with the configuration that was given.
pub proof fn the_service_is_started(program: Program, detail: bool, config_path: Seq<char>)
    ensures
        ({
            let read = read_from(program, daemon_args(detail, config_path), 0, no_args(program));
            &&& read is Some
            &&& read->0.command == Some("run"@)
            &&& read->0.config_path == config_path
            &&& read->0.follow == !detail
        }),
{
    let args = daemon_args(detail, config_path);
    let start = no_args(program);
    if detail {
        lemma_started_with(program, args, 0, start, config_path);
    } else {
        lemma_words();
        let s1 = ArgsView { command: Some("log"@), ..start };
        let s2 = ArgsView { positionals: s1.positionals.push("-1"@), ..s1 };
        let s3 = ArgsView { follow: true, ..s2 };
        lemma_started_with(program, args, 3, s3, config_path);
        assert(read_from(program, args, 2, s2) == read_from(program, args, 3, s3));
        assert(read_from(program, args, 1, s1) == read_from(program, args, 2, s2));
        assert(read_from(program, args, 0, start) == read_from(program, args, 1, s1));
    }
}

/// What stands behind a flag is its value, whatever it is; a flag without a value is on; and
/// the first other argument with two dashes is the command, in the way it is written, while
/// the rest are its arguments, in their order.
pub proof fn arguments_are_read(
    program: Program,
    args: Seq<Seq<char>>,
    st: ArgsView,
    i: int,
)
    requires
        0 <= i < args.len(),
    ensures
        ({
            let client = program == Program::Client;
            let more = i + 1 < args.len();
            let v = args[i + 1];
            let r = read_from(program, args, i, st);
            &&& args[i] == "--config"@ && more ==> r == read_from(
                program,
                args,
                i + 2,
                ArgsView { config_path: v, ..st },
            )
            &&& args[i] == "--ip"@ && more ==> r == read_from(
                program,
                args,
                i + 2,
                ArgsView { ip: Some(v), ..st },
            )
            &&& args[i] == "--code"@ && client && more ==> r == read_from(
                program,
                args,
                i + 2,
                ArgsView { code: Some(v), ..st },
            )
            &&& args[i] == "--token"@ && client && more ==> r == read_from(
                program,
                args,
                i + 2,
                ArgsView { token: Some(v), ..st },
            )
            &&& args[i] == "--reason"@ && !client && more ==> r == read_from(
                program,
                args,
                i + 2,
                ArgsView { reason: Some(v), ..st },
            )
            &&& args[i] == "--quiet"@ ==> r == read_from(
                program,
                args,
                i + 1,
                ArgsView { quiet: true, ..st },
            )
            &&& args[i] == "--follow"@ ==> r == read_from(
                program,
                args,
                i + 1,
                ArgsView { follow: true, ..st },
            )
            &&& args[i] == "-d"@ ==> r == read_from(
                program,
                args,
                i + 1,
                ArgsView { detail: true, ..st },
            )
            &&& args[i] == "-y"@ && client && st.trust != Some(false) ==> r == read_from(
                program,
                args,
                i + 1,
                ArgsView { trust: Some(true), ..st },
            )
            &&& args[i] == "-n"@ && client && st.trust != Some(true) ==> r == read_from(
                program,
                args,
                i + 1,
                ArgsView { trust: Some(false), ..st },
            )
            &&& args[i] == "-y"@ && client && st.trust == Some(false) ==> r is None
            &&& args[i].len() > 0 && args[i][0] != '-' ==> r == read_from(
                program,
                args,
                i + 1,
                ArgsView { positionals: st.positionals.push(args[i]), ..st },
            )
            &&& args[i] == "--log"@ && st.command is None ==> r == read_from(
                program,
                args,
                i + 1,
                ArgsView { command: Some("log"@), ..st },
            )
        }),
{
    lemma_words();
    lemma_flags(program);
    if args[i].len() > 0 && args[i][0] != '-' {
        lemma_plain(program, args[i]);
    }
}

proof fn lemma_plain(program: Program, a: Seq<char>)
    requires
        a.len() > 0,
        a[0] != '-',
    ensures
        flag_of(program, a) == Flag::Plain,
{
    reveal_strlit("--config");
    reveal_strlit("--quiet");
    reveal_strlit("--follow");
    reveal_strlit("--ip");
    reveal_strlit("--code");
    reveal_strlit("--token");
    reveal_strlit("--reason");
    reveal_strlit("-d");
    reveal_strlit("--detail");
    reveal_strlit("-y");
    reveal_strlit("--yes");
    reveal_strlit("-n");
    reveal_strlit("--no");
    reveal_strlit("--run");
}

proof fn lemma_flags(program: Program)
    ensures
        flag_of(program, "--ip"@) == Flag::Ip,
        program == Program::Client ==> flag_of(program, "--code"@) == Flag::Code,
        program == Program::Client ==> flag_of(program, "--token"@) == Flag::Token,
        program == Program::Server ==> flag_of(program, "--reason"@) == Flag::Reason,
        flag_of(program, "--quiet"@) == Flag::Quiet,
        flag_of(program, "-d"@) == Flag::Detail,
        program == Program::Client ==> flag_of(program, "-y"@) == Flag::Yes,
        program == Program::Client ==> flag_of(program, "-n"@) == Flag::No,
{
    reveal_strlit("--config");
    reveal_strlit("--quiet");
    reveal_strlit("--follow");
    reveal_strlit("--ip");
    reveal_strlit("--code");
    reveal_strlit("--token");
    reveal_strlit("--reason");
    reveal_strlit("-d");
    reveal_strlit("--detail");
    reveal_strlit("-y");
    reveal_strlit("--yes");
    reveal_strlit("-n");
    reveal_strlit("--no");
    assert("--ip"@.len() == 4 && "--code"@.len() == 6 && "-d"@.len() == 2);
    assert("--token"@[2] != "--quiet"@[2]);
    assert("--reason"@[2] != "--config"@[2] && "--reason"@[2] != "--follow"@[2]);
    assert("-y"@[1] != "-d"@[1] && "-n"@[1] != "-d"@[1] && "-n"@[1] != "-y"@[1]);
    assert("--quiet"@.len() == 7 && "--config"@.len() == 8 && "--follow"@.len() == 8);
}

/// What is said about a command that there is none of.
pub fn unknown_command(command: &str) -> (r: String)
    ensures
        r@ == "未知命令 "@ + command@ + "，执行 --help 查看帮助"@,
{
    join3("未知命令 ", command, "，执行 --help 查看帮助")
}

} // verus!
