//! The command line: the subcommand, its aliases, and the options.
use vstd::prelude::*;

use crate::strmap::views;
use crate::text::{cat3, chars_of, opt_str, own, slice_eq_str, str_eq, string_of};
use crate::values::{int_error_msg, int_error_text, parse_int_spec, parse_u32};

verus! {

/// A subcommand.
#[derive(Clone, Copy, PartialEq, Eq, Structural, Debug)]
pub enum Command {
    Inspect,
    Up,
    Down,
    Restart,
    Status,
    Enter,
    Leave,
    Heartbeat,
    Daemon,
    Tui,
    Help,
}

/// The subcommand a word names, aliases included.
pub open spec fn command_spec(value: Seq<char>) -> Option<Command> {
    if value == "inspect"@ || value == "show"@ || value == "expose"@ {
        Some(Command::Inspect)
    } else if value == "run"@ || value == "r"@ || value == "up"@ || value == "start"@ {
        Some(Command::Up)
    } else if value == "stop"@ || value == "s"@ || value == "clean"@ || value == "et-tu"@ || value == "down"@ {
        Some(Command::Down)
    } else if value == "restart"@ || value == "qq"@ || value == "re"@ {
        Some(Command::Restart)
    } else if value == "status"@ || value == "stat"@ || value == "check"@ || value == "ch"@ {
        Some(Command::Status)
    } else if value == "enter"@ {
        Some(Command::Enter)
    } else if value == "leave"@ {
        Some(Command::Leave)
    } else if value == "heartbeat"@ {
        Some(Command::Heartbeat)
    } else if value == "daemon"@ {
        Some(Command::Daemon)
    } else if value == "tui"@ || value == "top"@ {
        Some(Command::Tui)
    } else if value == "help"@ || value == "h"@ {
        Some(Command::Help)
    } else {
        None
    }
}

/// Law: each command is named by exactly its own words: `inspect`,
/// `show`, `expose` inspect; `run`, `r`, `up`, `start` bring the services
/// up; `stop`, `s`, `clean`, `et-tu`, `down` stop them; `restart`, `qq`,
/// `re` restart them; `status`, `stat`, `check`, `ch` report status;
/// `tui`, `top` open the dashboard; `help`, `h` print help; and `enter`,
/// `leave`, `heartbeat`, `daemon` name themselves.
pub proof fn lemma_command_words(w: Seq<char>)
    ensures
        command_spec(w) == Some(Command::Inspect) <==> (w == "inspect"@ || w == "show"@ || w == "expose"@),
        command_spec(w) == Some(Command::Up) <==> (w == "run"@ || w == "r"@ || w == "up"@ || w == "start"@),
        command_spec(w) == Some(Command::Down) <==> (w == "stop"@ || w == "s"@ || w == "clean"@ || w == "et-tu"@ || w == "down"@),
        command_spec(w) == Some(Command::Restart) <==> (w == "restart"@ || w == "qq"@ || w == "re"@),
        command_spec(w) == Some(Command::Status) <==> (w == "status"@ || w == "stat"@ || w == "check"@ || w == "ch"@),
        command_spec(w) == Some(Command::Enter) <==> (w == "enter"@),
        command_spec(w) == Some(Command::Leave) <==> (w == "leave"@),
        command_spec(w) == Some(Command::Heartbeat) <==> (w == "heartbeat"@),
        command_spec(w) == Some(Command::Daemon) <==> (w == "daemon"@),
        command_spec(w) == Some(Command::Tui) <==> (w == "tui"@ || w == "top"@),
        command_spec(w) == Some(Command::Help) <==> (w == "help"@ || w == "h"@),
{
    reveal_strlit("inspect");
    assert("inspect"@.len() == 7);
    reveal_strlit("show");
    assert("show"@.len() == 4);
    reveal_strlit("expose");
    assert("expose"@.len() == 6);
    reveal_strlit("run");
    assert("run"@.len() == 3);
    reveal_strlit("r");
    assert("r"@.len() == 1);
    reveal_strlit("up");
    assert("up"@.len() == 2);
    reveal_strlit("start");
    assert("start"@.len() == 5);
    reveal_strlit("stop");
    assert("stop"@.len() == 4);
    reveal_strlit("s");
    assert("s"@.len() == 1);
    reveal_strlit("clean");
    assert("clean"@.len() == 5);
    reveal_strlit("et-tu");
    assert("et-tu"@.len() == 5);
    reveal_strlit("down");
    assert("down"@.len() == 4);
    reveal_strlit("restart");
    assert("restart"@.len() == 7);
    reveal_strlit("qq");
    assert("qq"@.len() == 2);
    reveal_strlit("re");
    assert("re"@.len() == 2);
    reveal_strlit("status");
    assert("status"@.len() == 6);
    reveal_strlit("stat");
    assert("stat"@.len() == 4);
    reveal_strlit("check");
    assert("check"@.len() == 5);
    reveal_strlit("ch");
    assert("ch"@.len() == 2);
    reveal_strlit("enter");
    assert("enter"@.len() == 5);
    reveal_strlit("leave");
    assert("leave"@.len() == 5);
    reveal_strlit("heartbeat");
    assert("heartbeat"@.len() == 9);
    reveal_strlit("daemon");
    assert("daemon"@.len() == 6);
    reveal_strlit("tui");
    assert("tui"@.len() == 3);
    reveal_strlit("top");
    assert("top"@.len() == 3);
    reveal_strlit("help");
    assert("help"@.len() == 4);
    reveal_strlit("h");
    assert("h"@.len() == 1);
    assert("stop"@[1] != "show"@[1]);
    assert("stop"@ != "show"@);
    assert("s"@[0] != "r"@[0]);
    assert("s"@ != "r"@);
    assert("clean"@[0] != "start"@[0]);
    assert("clean"@ != "start"@);
    assert("et-tu"@[0] != "start"@[0]);
    assert("et-tu"@ != "start"@);
    assert("down"@[0] != "show"@[0]);
    assert("down"@ != "show"@);
    assert("restart"@[0] != "inspect"@[0]);
    assert("restart"@ != "inspect"@);
    assert("qq"@[0] != "up"@[0]);
    assert("qq"@ != "up"@);
    assert("re"@[0] != "up"@[0]);
    assert("re"@ != "up"@);
    assert("status"@[0] != "expose"@[0]);
    assert("status"@ != "expose"@);
    assert("stat"@[1] != "show"@[1]);
    assert("stat"@ != "show"@);
    assert("stat"@[2] != "stop"@[2]);
    assert("stat"@ != "stop"@);
    assert("stat"@[0] != "down"@[0]);
    assert("stat"@ != "down"@);
    assert("check"@[0] != "start"@[0]);
    assert("check"@ != "start"@);
    assert("check"@[1] != "clean"@[1]);
    assert("check"@ != "clean"@);
    assert("check"@[0] != "et-tu"@[0]);
    assert("check"@ != "et-tu"@);
    assert("ch"@[0] != "up"@[0]);
    assert("ch"@ != "up"@);
    assert("ch"@[0] != "qq"@[0]);
    assert("ch"@ != "qq"@);
    assert("ch"@[0] != "re"@[0]);
    assert("ch"@ != "re"@);
    assert("enter"@[0] != "start"@[0]);
    assert("enter"@ != "start"@);
    assert("enter"@[0] != "clean"@[0]);
    assert("enter"@ != "clean"@);
    assert("enter"@[1] != "et-tu"@[1]);
    assert("enter"@ != "et-tu"@);
    assert("enter"@[0] != "check"@[0]);
    assert("enter"@ != "check"@);
    assert("leave"@[0] != "start"@[0]);
    assert("leave"@ != "start"@);
    assert("leave"@[0] != "clean"@[0]);
    assert("leave"@ != "clean"@);
    assert("leave"@[0] != "et-tu"@[0]);
    assert("leave"@ != "et-tu"@);
    assert("leave"@[0] != "check"@[0]);
    assert("leave"@ != "check"@);
    assert("leave"@[0] != "enter"@[0]);
    assert("leave"@ != "enter"@);
    assert("daemon"@[0] != "expose"@[0]);
    assert("daemon"@ != "expose"@);
    assert("daemon"@[0] != "status"@[0]);
    assert("daemon"@ != "status"@);
    assert("tui"@[0] != "run"@[0]);
    assert("tui"@ != "run"@);
    assert("top"@[0] != "run"@[0]);
    assert("top"@ != "run"@);
    assert("help"@[0] != "show"@[0]);
    assert("help"@ != "show"@);
    assert("help"@[0] != "stop"@[0]);
    assert("help"@ != "stop"@);
    assert("help"@[0] != "down"@[0]);
    assert("help"@ != "down"@);
    assert("help"@[0] != "stat"@[0]);
    assert("help"@ != "stat"@);
    assert("h"@[0] != "r"@[0]);
    assert("h"@ != "r"@);
    assert("h"@[0] != "s"@[0]);
    assert("h"@ != "s"@);
}

/// The message for a word that names no subcommand.
pub open spec fn unknown_command_msg(value: Seq<char>) -> Seq<char> {
    "unknown command `"@ + value + "`"@
}

impl Command {
    /// The subcommand named by `value`.
    pub fn parse(value: &str) -> (r: Result<Command, String>)
        ensures
            match command_spec(value@) {
                Some(c) => r == Ok::<Command, String>(c),
                None => r matches Err(e) && e@ == unknown_command_msg(value@),
            },
    {
        let v = value;
        if str_eq(v, "inspect") || str_eq(v, "show") || str_eq(v, "expose") {
            Ok(Command::Inspect)
        } else if str_eq(v, "run") || str_eq(v, "r") || str_eq(v, "up") || str_eq(v, "start") {
            Ok(Command::Up)
        } else if str_eq(v, "stop") || str_eq(v, "s") || str_eq(v, "clean") || str_eq(v, "et-tu") || str_eq(v, "down") {
            Ok(Command::Down)
        } else if str_eq(v, "restart") || str_eq(v, "qq") || str_eq(v, "re") {
            Ok(Command::Restart)
        } else if str_eq(v, "status") || str_eq(v, "stat") || str_eq(v, "check") || str_eq(v, "ch") {
            Ok(Command::Status)
        } else if str_eq(v, "enter") {
            Ok(Command::Enter)
        } else if str_eq(v, "leave") {
            Ok(Command::Leave)
        } else if str_eq(v, "heartbeat") {
            Ok(Command::Heartbeat)
        } else if str_eq(v, "daemon") {
            Ok(Command::Daemon)
        } else if str_eq(v, "tui") || str_eq(v, "top") {
            Ok(Command::Tui)
        } else if str_eq(v, "help") || str_eq(v, "h") {
            Ok(Command::Help)
        } else {
            Err(cat3("unknown command `", value, "`"))
        }
    }
}

/// The options of a command line.
pub struct CommandArgs {
    pub manifest: Option<String>,
    pub json: bool,
    pub services: Vec<String>,
    pub kind: Option<String>,
    pub root: Option<String>,
    pub pid: Option<u32>,
    pub token: Option<String>,
}

/// A command line read so far, as plain values.
pub struct ArgsView {
    pub command: Option<Command>,
    pub manifest: Option<Seq<char>>,
    pub json: bool,
    pub services: Seq<Seq<char>>,
    pub kind: Option<Seq<char>>,
    pub root: Option<Seq<char>>,
    pub pid: Option<u32>,
    pub token: Option<Seq<char>>,
}

/// Nothing read yet.
pub open spec fn empty_args() -> ArgsView {
    ArgsView {
        command: None,
        manifest: None,
        json: false,
        services: seq![],
        kind: None,
        root: None,
        pid: None,
        token: None,
    }
}

/// The message for an option given without its value.
pub open spec fn missing_value_msg(arg: Seq<char>) -> Seq<char> {
    "missing value for "@ + arg
}

/// The message for a `--pid` that is not a `u32`.
pub open spec fn pid_msg(value: Seq<char>, k: crate::values::IntErrorKind) -> Seq<char> {
    "invalid --pid value `"@ + value + "`: "@ + int_error_msg(k)
}

/// The message for an option nobody knows.
pub open spec fn unknown_option_msg(arg: Seq<char>) -> Seq<char> {
    "unknown option `"@ + arg + "`"@
}

/// `a` starts with `p`.
pub open spec fn has_prefix(a: Seq<char>, p: Seq<char>) -> bool {
    a.len() >= p.len() && a.take(p.len() as int) == p
}

/// The options that take the next argument as their value.
pub open spec fn takes_value(a: Seq<char>) -> bool {
    a == "--kind"@ || a == "--root"@ || a == "--pid"@ || a == "--token"@ || a == "--manifest"@ || a == "-m"@
}

/// The command line from argument `i` on, read onto `st`: the first
/// non-option word is the subcommand, later ones are services.
pub open spec fn parse_from(args: Seq<Seq<char>>, i: int, st: ArgsView) -> Result<ArgsView, Seq<char>>
    decreases args.len() - i,
{
    if i < 0 || i >= args.len() {
        Ok(st)
    } else {
        let a = args[i];
        if a == "-h"@ || a == "--help"@ {
            parse_from(args, i + 1, ArgsView { command: Some(Command::Help), ..st })
        } else if a == "--json"@ {
            parse_from(args, i + 1, ArgsView { json: true, ..st })
        } else if takes_value(a) {
            if i + 1 >= args.len() {
                Err(missing_value_msg(a))
            } else {
                let v = args[i + 1];
                if a == "--kind"@ {
                    parse_from(args, i + 2, ArgsView { kind: Some(v), ..st })
                } else if a == "--root"@ {
                    parse_from(args, i + 2, ArgsView { root: Some(v), ..st })
                } else if a == "--pid"@ {
                    match parse_int_spec(v, 10, false, 0, u32::MAX as int) {
                        Ok(n) => parse_from(args, i + 2, ArgsView { pid: Some(n as u32), ..st }),
                        Err(k) => Err(pid_msg(v, k)),
                    }
                } else if a == "--token"@ {
                    parse_from(args, i + 2, ArgsView { token: Some(v), ..st })
                } else {
                    parse_from(args, i + 2, ArgsView { manifest: Some(v), ..st })
                }
            }
        } else if has_prefix(a, "--manifest="@) {
            parse_from(args, i + 1, ArgsView { manifest: Some(a.skip(11)), ..st })
        } else if has_prefix(a, "--token="@) {
            parse_from(args, i + 1, ArgsView { token: Some(a.skip(8)), ..st })
        } else if a.len() > 0 && a[0] == '-' {
            Err(unknown_option_msg(a))
        } else if st.command is None {
            match command_spec(a) {
                Some(c) => parse_from(args, i + 1, ArgsView { command: Some(c), ..st }),
                None => Err(unknown_command_msg(a)),
            }
        } else {
            parse_from(args, i + 1, ArgsView { services: st.services.push(a), ..st })
        }
    }
}

/// What a command line gives: the subcommand (help when none is named)
/// and its options, the token taken from the environment when no option
/// gives one.
pub open spec fn parse_args_spec(args: Seq<Seq<char>>, env_token: Option<Seq<char>>) -> Result<ArgsView, Seq<char>> {
    match parse_from(args, 0, empty_args()) {
        Err(e) => Err(e),
        Ok(st) => Ok(
            ArgsView {
                command: Some(
                    match st.command {
                        Some(c) => c,
                        None => Command::Help,
                    },
                ),
                token: match st.token {
                    Some(t) => Some(t),
                    None => env_token,
                },
                ..st
            },
        ),
    }
}

/// The view of parsed options under a command.
pub open spec fn args_view(c: Command, a: CommandArgs) -> ArgsView {
    ArgsView {
        command: Some(c),
        manifest: opt_str(a.manifest),
        json: a.json,
        services: views(a.services@),
        kind: opt_str(a.kind),
        root: opt_str(a.root),
        pid: a.pid,
        token: opt_str(a.token),
    }
}

/// The view of the options read so far.
pub open spec fn state_view(
    command: Option<Command>,
    manifest: Option<String>,
    json: bool,
    services: Seq<String>,
    kind: Option<String>,
    root: Option<String>,
    pid: Option<u32>,
    token: Option<String>,
) -> ArgsView {
    ArgsView {
        command,
        manifest: opt_str(manifest),
        json,
        services: views(services),
        kind: opt_str(kind),
        root: opt_str(root),
        pid,
        token: opt_str(token),
    }
}

/// Reads a command line: the arguments after the program name, and the
/// value of `IDES_LEASE_TOKEN` if set.
pub fn parse_args(args: &Vec<String>, env_token: Option<String>) -> (r: Result<(Command, CommandArgs), String>)
    ensures
        r matches Ok((c, a)) ==> parse_args_spec(views(args@), opt_str(env_token)) == Ok::<ArgsView, Seq<char>>(
            args_view(c, a),
        ),
        r matches Err(e) ==> parse_args_spec(views(args@), opt_str(env_token)) == Err::<ArgsView, Seq<char>>(e@),
{
    let ghost av = views(args@);
    let mut command: Option<Command> = None;
    let mut manifest: Option<String> = None;
    let mut json = false;
    let mut services: Vec<String> = Vec::new();
    let mut kind: Option<String> = None;
    let mut root: Option<String> = None;
    let mut pid: Option<u32> = None;
    let mut token: Option<String> = None;
    let mut i: usize = 0;
    proof {
        assert(state_view(command, manifest, json, services@, kind, root, pid, token) == empty_args()) by {
            assert(views(services@) =~= seq![]);
        }
    }
    while i < args.len()
        invariant
            av == views(args@),
            i <= args@.len(),
            parse_from(av, 0, empty_args()) == parse_from(
                av,
                i as int,
                state_view(command, manifest, json, services@, kind, root, pid, token),
            ),
        decreases args.len() - i,
    {
        let arg = args[i].as_str();
        let ghost st = state_view(command, manifest, json, services@, kind, root, pid, token);
        assert(av[i as int] == arg@);
        if str_eq(arg, "-h") || str_eq(arg, "--help") {
            command = Some(Command::Help);
            i = i + 1;
        } else if str_eq(arg, "--json") {
            json = true;
            i = i + 1;
        } else if str_eq(arg, "--kind") || str_eq(arg, "--root") || str_eq(arg, "--pid") || str_eq(arg, "--token")
            || str_eq(arg, "--manifest") || str_eq(arg, "-m") {
            if i + 1 >= args.len() {
                return Err(crate::text::cat("missing value for ", arg));
            }
            let value = args[i + 1].as_str();
            assert(av[i + 1] == value@);
            if str_eq(arg, "--kind") {
                kind = Some(own(value));
            } else if str_eq(arg, "--root") {
                root = Some(own(value));
            } else if str_eq(arg, "--pid") {
                match parse_u32(value) {
                    Ok(n) => {
                        pid = Some(n);
                    },
                    Err(k) => {
                        let m = int_error_text(k);
                        return Err(cat3("invalid --pid value `", value, "`: ").concat(m.as_str()));
                    },
                }
            } else if str_eq(arg, "--token") {
                token = Some(own(value));
            } else {
                manifest = Some(own(value));
            }
            i = i + 2;
        } else {
            let cs = chars_of(arg);
            if cs.len() >= 11 && slice_eq_str(&cs, 0, 11, "--manifest=") {
                assert(cs@.subrange(0, 11) =~= arg@.take(11));
                assert("--manifest="@.len() == 11) by {
                    reveal_strlit("--manifest=");
                }
                let v = string_of(&cs, 11, cs.len());
                assert(cs@.subrange(11, cs@.len() as int) =~= arg@.skip(11));
                manifest = Some(v);
                i = i + 1;
            } else {
                proof {
                    reveal_strlit("--manifest=");
                    if cs@.len() >= 11 {
                        assert(cs@.subrange(0, 11) =~= arg@.take(11));
                    }
                }
                if cs.len() >= 8 && slice_eq_str(&cs, 0, 8, "--token=") {
                    assert(cs@.subrange(0, 8) =~= arg@.take(8));
                    assert("--token="@.len() == 8) by {
                        reveal_strlit("--token=");
                    }
                    let v = string_of(&cs, 8, cs.len());
                    assert(cs@.subrange(8, cs@.len() as int) =~= arg@.skip(8));
                    token = Some(v);
                    i = i + 1;
                } else {
                    proof {
                        reveal_strlit("--token=");
                        if cs@.len() >= 8 {
                            assert(cs@.subrange(0, 8) =~= arg@.take(8));
                        }
                    }
                    if cs.len() > 0 && cs[0] == '-' {
                        return Err(cat3("unknown option `", arg, "`"));
                    }
                    if command.is_none() {
                        let c = Command::parse(arg)?;
                        command = Some(c);
                    } else {
                        let ghost prev = services@;
                        services.push(own(arg));
                        assert(views(services@) =~= views(prev).push(arg@));
                    }
                    i = i + 1;
                }
            }
        }
    }
    let token = match token {
        Some(t) => Some(t),
        None => env_token,
    };
    let c = match command {
        Some(c) => c,
        None => Command::Help,
    };
    Ok((c, CommandArgs { manifest, json, services, kind, root, pid, token }))
}

} // verus!

verus! {

/// The lines `inspect` shows for the configs of a service.
pub open spec fn config_block_spec(cs: Seq<(String, crate::manifest::ConfigFile)>) -> Seq<char>
    decreases cs.len(),
{
    if cs.len() == 0 {
        seq![]
    } else {
        config_block_spec(cs.drop_last()) + "  config "@ + cs.last().0@ + ": "@ + crate::manifest::display_path_spec(
            cs.last().1,
        ) + "\n"@
    }
}

/// The lines `inspect` shows for service `name`.
pub open spec fn service_block_spec(name: Seq<char>, s: crate::manifest::Service) -> Seq<char> {
    "- "@ + name + "\n"@ + "  unit: "@ + s.unit_name@ + "\n"@ + "  command: "@ + (match s.execution.shell_command {
        Some(sc) => sc@,
        None => s.execution.command@,
    }) + "\n"@ + config_block_spec(s.configs@) + "  runtime: "@ + s.runtime.paths.base@ + "\n"@ + (if s.systemd_args@.len()
        > 0 {
        "  systemd args: "@ + s.systemd_args@ + "\n"@
    } else {
        seq![]
    })
}

/// The blocks of the services named, up to the first name the manifest
/// does not hold, and then its error.
pub open spec fn service_blocks_spec(manifest: crate::manifest::Manifest, names: Seq<Seq<char>>) -> (Seq<char>, Option<Seq<char>>)
    decreases names.len(),
{
    if names.len() == 0 {
        (seq![], None)
    } else {
        let (t, e) = service_blocks_spec(manifest, names.drop_last());
        if e is Some {
            (t, e)
        } else {
            match crate::strmap::lookup(manifest.services@, names.last()) {
                None => (t, Some(crate::manifest::no_service_msg(names.last()))),
                Some(s) => (t + service_block_spec(names.last(), s), None),
            }
        }
    }
}

/// What `inspect` shows as text, up to the first service the manifest does
/// not hold, and that error.
pub open spec fn inspect_text_spec(manifest: crate::manifest::Manifest, manifest_path: Seq<char>, services: Seq<Seq<char>>) -> (
    Seq<char>,
    Option<Seq<char>>,
) {
    let head = "manifest: "@ + manifest_path + "\n"@ + "set: "@ + manifest.name@ + " ("@ + manifest.set_id@ + ")\n"@
        + "auto start: "@ + (if manifest.auto_start {
        "true"@
    } else {
        "false"@
    }) + "\n"@ + "services:\n"@;
    let names = if services.len() == 0 {
        crate::strmap::keys_of(manifest.services@)
    } else {
        services
    };
    let (t, e) = service_blocks_spec(manifest, names);
    (head + t, e)
}

/// The block of one service.
fn service_block(name: &str, s: &crate::manifest::Service) -> (r: String)
    ensures
        r@ == service_block_spec(name@, *s),
{
    let mut out = own("- ");
    crate::text::push_str(&mut out, name);
    crate::text::push_str(&mut out, "\n");
    crate::text::push_str(&mut out, "  unit: ");
    crate::text::push_str(&mut out, s.unit_name.as_str());
    crate::text::push_str(&mut out, "\n");
    crate::text::push_str(&mut out, "  command: ");
    crate::text::push_str(&mut out, s.execution.display_command().as_str());
    crate::text::push_str(&mut out, "\n");
    let ghost head = out@;
    let configs = s.configs.entries();
    let mut i: usize = 0;
    proof {
        assert(configs@.take(0) =~= Seq::<(String, crate::manifest::ConfigFile)>::empty());
        assert(out@ =~= head + config_block_spec(configs@.take(0)));
    }
    while i < configs.len()
        invariant
            configs@ == s.configs@,
            i <= configs@.len(),
            out@ == head + config_block_spec(configs@.take(i as int)),
        decreases configs.len() - i,
    {
        let mut line = own("  config ");
        crate::text::push_str(&mut line, configs[i].0.as_str());
        crate::text::push_str(&mut line, ": ");
        crate::text::push_str(&mut line, configs[i].1.display_path().as_str());
        crate::text::push_str(&mut line, "\n");
        crate::text::push_str(&mut out, line.as_str());
        assert(configs@.take(i + 1).drop_last() =~= configs@.take(i as int));
        assert(configs@.take(i + 1).last() == configs@[i as int]);
        assert(out@ =~= head + config_block_spec(configs@.take(i + 1)));
        i = i + 1;
    }
    assert(configs@.take(configs@.len() as int) =~= configs@);
    crate::text::push_str(&mut out, "  runtime: ");
    crate::text::push_str(&mut out, s.runtime.paths.base.as_str());
    crate::text::push_str(&mut out, "\n");
    if s.systemd_args.unicode_len() > 0 {
        let mut tail = own("  systemd args: ");
        crate::text::push_str(&mut tail, s.systemd_args.as_str());
        crate::text::push_str(&mut tail, "\n");
        crate::text::push_str(&mut out, tail.as_str());
    } else {
        assert(out@ =~= out@ + Seq::<char>::empty());
    }
    out
}

/// What `inspect` prints as text: the manifest path, the set, and a block
/// per service (all, in name order, when none is named). At a name the
/// manifest does not hold it stops, with what it printed so far and the
/// error.
pub fn inspect_text(manifest: &crate::manifest::Manifest, manifest_path: &str, services: &Vec<String>) -> (r: (
    String,
    Result<(), String>,
))
    ensures
        ({
            let (t, e) = inspect_text_spec(*manifest, manifest_path@, views(services@));
            &&& r.0@ == t
            &&& match e {
                Some(m) => r.1 matches Err(x) && x@ == m,
                None => r.1 is Ok,
            }
        }),
{
    let mut out = own("manifest: ");
    crate::text::push_str(&mut out, manifest_path);
    crate::text::push_str(&mut out, "\n");
    crate::text::push_str(&mut out, "set: ");
    crate::text::push_str(&mut out, manifest.name.as_str());
    crate::text::push_str(&mut out, " (");
    crate::text::push_str(&mut out, manifest.set_id.as_str());
    crate::text::push_str(&mut out, ")\n");
    crate::text::push_str(&mut out, "auto start: ");
    if manifest.auto_start {
        crate::text::push_str(&mut out, "true");
    } else {
        crate::text::push_str(&mut out, "false");
    }
    crate::text::push_str(&mut out, "\n");
    crate::text::push_str(&mut out, "services:\n");
    let ghost head = out@;
    let entries = manifest.services.entries();
    let mut names: Vec<String> = Vec::new();
    if services.len() == 0 {
        let mut k: usize = 0;
        while k < entries.len()
            invariant
                entries@ == manifest.services@,
                k <= entries@.len(),
                views(names@) == crate::strmap::keys_of(entries@).take(k as int),
            decreases entries.len() - k,
        {
            let ghost prev = names@;
            names.push(own(entries[k].0.as_str()));
            assert(views(names@) =~= views(prev).push(entries@[k as int].0@));
            assert(crate::strmap::keys_of(entries@).take(k + 1) =~= crate::strmap::keys_of(entries@).take(k as int).push(
                entries@[k as int].0@,
            ));
            k = k + 1;
        }
        assert(crate::strmap::keys_of(entries@).take(entries@.len() as int) =~= crate::strmap::keys_of(entries@));
    } else {
        let mut k: usize = 0;
        while k < services.len()
            invariant
                k <= services@.len(),
                views(names@) == views(services@).take(k as int),
            decreases services.len() - k,
        {
            let ghost prev = names@;
            names.push(own(services[k].as_str()));
            assert(views(names@) =~= views(prev).push(services@[k as int]@));
            assert(views(services@).take(k + 1) =~= views(services@).take(k as int).push(services@[k as int]@));
            k = k + 1;
        }
        assert(views(services@).take(services@.len() as int) =~= views(services@));
    }
    let ghost nv = views(names@);
    let mut i: usize = 0;
    proof {
        assert(inspect_text_spec(*manifest, manifest_path@, views(services@)).0 =~= head + service_blocks_spec(*manifest, nv).0);
    }
    proof {
        assert(nv.take(0) =~= Seq::<Seq<char>>::empty());
        assert(out@ =~= head + service_blocks_spec(*manifest, nv.take(0)).0);
    }
    while i < names.len()
        invariant
            nv == views(names@),
            nv == (if services@.len() == 0 {
                crate::strmap::keys_of(manifest.services@)
            } else {
                views(services@)
            }),
            inspect_text_spec(*manifest, manifest_path@, views(services@)).0 == head + service_blocks_spec(*manifest, nv).0,
            inspect_text_spec(*manifest, manifest_path@, views(services@)).1 == service_blocks_spec(*manifest, nv).1,
            i <= names@.len(),
            service_blocks_spec(*manifest, nv.take(i as int)).1 is None,
            out@ == head + service_blocks_spec(*manifest, nv.take(i as int)).0,
        decreases names.len() - i,
    {
        assert(nv.take(i + 1).drop_last() =~= nv.take(i as int));
        assert(nv.take(i + 1).last() == names@[i as int]@);
        match manifest.services.get(names[i].as_str()) {
            Some(s) => {
                let b = service_block(names[i].as_str(), s);
                let ghost before = out@;
                crate::text::push_str(&mut out, b.as_str());
                assert(out@ =~= head + service_blocks_spec(*manifest, nv.take(i + 1)).0);
            },
            None => {
                proof {
                    lemma_blocks_stop(*manifest, nv, i as int);
                }
                return (out, Err(crate::manifest::no_service_error(names[i].as_str())));
            },
        }
        i = i + 1;
    }
    assert(nv.take(names@.len() as int) =~= nv);
    (out, Ok(()))
}

/// Once a name is missing, later names add nothing.
proof fn lemma_blocks_stop(manifest: crate::manifest::Manifest, names: Seq<Seq<char>>, i: int)
    requires
        0 <= i < names.len(),
        service_blocks_spec(manifest, names.take(i)).1 is None,
        crate::strmap::lookup(manifest.services@, names[i]) is None,
    ensures
        service_blocks_spec(manifest, names) == (
            service_blocks_spec(manifest, names.take(i)).0,
            Some(crate::manifest::no_service_msg(names[i])),
        ),
    decreases names.len(),
{
    if i + 1 == names.len() {
        assert(names.drop_last() =~= names.take(i));
    } else {
        assert(names.drop_last().take(i) =~= names.take(i));
        lemma_blocks_stop(manifest, names.drop_last(), i);
    }
}

} // verus!

verus! {

/// What `inspect` shows.
pub enum Inspection<'a> {
    /// The whole manifest, as JSON.
    Manifest,
    /// The services named, as JSON.
    Services(Vec<(&'a str, &'a crate::manifest::Service)>),
    /// Text, and the error it stopped at, if any.
    Text(String, Result<(), String>),
}

/// What `inspect` shows for these options: JSON of the manifest or of the
/// services named, or the text summary.
pub fn inspect<'a>(manifest: &'a crate::manifest::Manifest, manifest_path: &str, args: &CommandArgs) -> (r: Result<
    Inspection<'a>,
    String,
>)
    ensures
        args.json && args.services@.len() == 0 ==> r matches Ok(Inspection::Manifest),
        args.json && args.services@.len() > 0 ==> (r is Err <==> exists|i: int|
            crate::manifest::first_missing(manifest.services@, args.services@, i)),
        args.json ==> (r matches Err(e) ==> exists|i: int|
            crate::manifest::first_missing(manifest.services@, args.services@, i) && e@
                == crate::manifest::no_service_msg(args.services@[i]@)),
        args.json && args.services@.len() > 0 ==> (r matches Ok(Inspection::Services(v)) && crate::manifest::pair_views(v@)
            == crate::manifest::named_pairs(manifest.services@, args.services@)) || r is Err,
        !args.json ==> (r matches Ok(Inspection::Text(t, e)) && ({
            let (st, se) = inspect_text_spec(*manifest, manifest_path@, views(args.services@));
            &&& t@ == st
            &&& match se {
                Some(m) => e matches Err(x) && x@ == m,
                None => e is Ok,
            }
        })),
{
    if args.json {
        if args.services.len() == 0 {
            return Ok(Inspection::Manifest);
        }
        let selected = manifest.selected_services(args.services.as_slice())?;
        Ok(Inspection::Services(selected))
    } else {
        let (t, e) = inspect_text(manifest, manifest_path, &args.services);
        Ok(Inspection::Text(t, e))
    }
}

} // verus!

verus! {

/// The message when no lease token is given.
pub open spec fn no_token_msg() -> Seq<char> {
    "pass --token <token> or set IDES_LEASE_TOKEN"@
}

/// The lease token that `leave` and `heartbeat` act on.
pub fn required_token(token: Option<String>) -> (r: Result<String, String>)
    ensures
        match token {
            Some(t) => r == Ok::<String, String>(t),
            None => r matches Err(e) && e@ == no_token_msg(),
        },
{
    match token {
        Some(t) => Ok(t),
        None => Err(own("pass --token <token> or set IDES_LEASE_TOKEN")),
    }
}

/// The kind of a new lease: the one given, else `shell`.
pub fn lease_kind(kind: &Option<String>) -> (r: &str)
    ensures
        r@ == match kind {
            Some(k) => k@,
            None => "shell"@,
        },
{
    match kind {
        Some(k) => k.as_str(),
        None => "shell",
    }
}

/// The message when no manifest is named.
pub open spec fn no_manifest_msg() -> Seq<char> {
    "set IDES_MANIFEST or pass --manifest <path>"@
}

/// The manifest to read: the `--manifest` option, else the value of
/// `IDES_MANIFEST`.
pub fn manifest_location(option: Option<String>, env_manifest: Option<String>) -> (r: Result<String, String>)
    ensures
        match option {
            Some(p) => r == Ok::<String, String>(p),
            None => match env_manifest {
                Some(p) => r == Ok::<String, String>(p),
                None => r matches Err(e) && e@ == no_manifest_msg(),
            },
        },
{
    match option {
        Some(p) => Ok(p),
        None => match env_manifest {
            Some(p) => Ok(p),
            None => Err(own("set IDES_MANIFEST or pass --manifest <path>")),
        },
    }
}

} // verus!
