//! The per-set daemon: the requests shells send it, its answers, where its
//! socket lives, how its unit is started, and what it does with each
//! request and while idle. The caller owns the socket, the clock and the
//! lease files, and hands each result in.
use vstd::prelude::*;

use crate::leases::{opt_view, LeaveOutcome};
use crate::manifest::{Manifest, ManifestRuntime};
use crate::path::{
    all_normal, components, is_safe_relative_path, join, lemma_join_components,
    lemma_plain_name_safe, path_join, path_starts_with, safe_relative,
};
use crate::properties::{commands_view, props_view, PropView, PropertyValue};
use crate::strmap::{views, StrMap};
use crate::text::{cat, cat3, chars_of, own, str_result, string_of};

verus! {

/// A request to the daemon.
#[derive(Debug)]
pub enum Request {
    Ping,
    Enter { manifest_path: String, kind: String, root: String, pid: Option<u32> },
    Leave { token: String },
    Heartbeat { token: String },
}

/// The daemon's answer.
#[derive(Debug)]
pub struct Response {
    pub ok: bool,
    pub token: Option<String>,
    pub last: bool,
    pub error: Option<String>,
}

impl Response {
    /// Success, with nothing more to say.
    pub fn ok() -> (r: Self)
        ensures
            r.ok && r.token is None && !r.last && r.error is None,
    {
        Response { ok: true, token: None, last: false, error: None }
    }

    /// Success, with the token of a new lease.
    pub fn token(token: String) -> (r: Self)
        ensures
            r.ok && r.token == Some(token) && !r.last && r.error is None,
    {
        Response { ok: true, token: Some(token), last: false, error: None }
    }

    /// Success, saying whether the lease left was the last one.
    pub fn last(last: bool) -> (r: Self)
        ensures
            r.ok && r.token is None && r.last == last && r.error is None,
    {
        Response { ok: true, token: None, last, error: None }
    }

    /// Failure, with its reason.
    pub fn error(error: String) -> (r: Self)
        ensures
            !r.ok && r.token is None && !r.last && r.error == Some(error),
    {
        Response { ok: false, token: None, last: false, error: Some(error) }
    }
}

/// The message of a failed answer that gives no reason.
pub open spec fn request_failed_msg() -> Seq<char> {
    "daemon request failed"@
}

/// An answer as the sender takes it: itself when it succeeded, else its
/// reason.
pub fn check_response(response: Response) -> (r: Result<Response, String>)
    ensures
        response.ok ==> r == Ok::<Response, String>(response),
        !response.ok ==> (r matches Err(e) && e@ == match response.error {
            Some(x) => x@,
            None => request_failed_msg(),
        }),
{
    if response.ok {
        Ok(response)
    } else {
        match response.error {
            Some(e) => Err(e),
            None => Err(own("daemon request failed")),
        }
    }
}

/// The request that opens a lease.
pub fn enter_request(manifest_path: &str, kind: &str, root: &str, pid: Option<u32>) -> (r: Request)
    ensures
        r matches Request::Enter { manifest_path: m, kind: k, root: x, pid: p } && m@ == manifest_path@ && k@
            == kind@ && x@ == root@ && p == pid,
{
    Request::Enter { manifest_path: own(manifest_path), kind: own(kind), root: own(root), pid }
}

/// The message when the daemon answers an enter without a token.
pub open spec fn no_token_msg() -> Seq<char> {
    "daemon did not return a lease token"@
}

/// The token of the lease the daemon opened, from its successful answer
/// to an enter request.
pub fn enter(reply: Response) -> (r: Result<String, String>)
    ensures
        match reply.token {
            Some(t) => r == Ok::<String, String>(t),
            None => r matches Err(e) && e@ == no_token_msg(),
        },
{
    match reply.token {
        Some(t) => Ok(t),
        None => Err(own("daemon did not return a lease token")),
    }
}

/// The set id of a token: what comes before its first `:`.
pub open spec fn token_set_id_spec(token: Seq<char>) -> Option<Seq<char>> {
    if token.contains(':') {
        Some(token.take(crate::leases::first_index(token, ':') as int))
    } else {
        None
    }
}

/// The set id of a token, if it has a `:`.
pub fn token_set_id(token: &str) -> (r: Option<String>)
    ensures
        opt_str_view(r) == token_set_id_spec(token@),
{
    let cs = chars_of(token);
    let mut i: usize = 0;
    while i < cs.len()
        invariant
            cs@ == token@,
            i <= cs@.len(),
            forall|j: int| 0 <= j < i ==> cs@[j] != ':',
        decreases cs.len() - i,
    {
        if cs[i] == ':' {
            proof {
                crate::leases::lemma_first_index(token@, ':', i as int);
            }
            let s = string_of(&cs, 0, i);
            assert(cs@.subrange(0, i as int) =~= token@.take(i as int));
            return Some(s);
        }
        i = i + 1;
    }
    proof {
        if token@.contains(':') {
            let k = choose|k: int| 0 <= k < token@.len() && token@[k] == ':';
            assert(cs@[k] == ':');
        }
    }
    None
}

/// The view of an optional string.
pub open spec fn opt_str_view(o: Option<String>) -> Option<Seq<char>> {
    crate::text::opt_str(o)
}

/// The default runtime base, used where the set's manifest is not at hand.
pub open spec fn default_base() -> Seq<char> {
    "ides/unknown"@
}

/// The manifest by which a shell that holds only a token reaches the
/// daemon: the token's set, with default settings and no services.
pub open spec fn token_manifest(m: Manifest, set_id: Seq<char>) -> bool {
    &&& m.schema_version == 1
    &&& m.set_id@ == set_id
    &&& m.name@ == Seq::<char>::empty()
    &&& !m.auto_start
    &&& m.runtime_shell@ == Seq::<char>::empty()
    &&& m.runtime.base@ == default_base()
    &&& m.services@.len() == 0
}

/// The manifest of set `set_id` as a token holder knows it.
pub fn daemon_manifest(set_id: &str) -> (r: Manifest)
    ensures
        token_manifest(r, set_id@),
{
    let runtime = ManifestRuntime::default();
    Manifest {
        schema_version: 1,
        set_id: own(set_id),
        name: String::new(),
        auto_start: false,
        runtime_shell: String::new(),
        runtime,
        services: StrMap::new(),
    }
}

/// Where to send a leave for `token`: the daemon of the token's set,
/// reached through `daemon_manifest`, with a leave request; none when the
/// token has no set id. When there is none or the daemon cannot be
/// reached, the caller leaves without it.
pub fn leave(token: &str) -> (r: Option<(Manifest, Request)>)
    ensures
        match token_set_id_spec(token@) {
            Some(s) => r matches Some((m, q)) && token_manifest(m, s) && (q matches Request::Leave { token: t } && t@ == token@),
            None => r is None,
        },
{
    match token_set_id(token) {
        Some(set_id) => Some((daemon_manifest(set_id.as_str()), Request::Leave { token: own(token) })),
        None => None,
    }
}

/// Where to send a heartbeat for `token`, as `leave` decides for a leave.
/// When there is none or the daemon cannot be reached, the caller renews
/// the lease file itself.
pub fn heartbeat(token: &str) -> (r: Option<(Manifest, Request)>)
    ensures
        match token_set_id_spec(token@) {
            Some(s) => r matches Some((m, q)) && token_manifest(m, s) && (q matches Request::Heartbeat { token: t } && t@ == token@),
            None => r is None,
        },
{
    match token_set_id(token) {
        Some(set_id) => Some((daemon_manifest(set_id.as_str()), Request::Heartbeat { token: own(token) })),
        None => None,
    }
}

/// The message when `XDG_RUNTIME_DIR` is not set for the daemon.
pub open spec fn no_xdg_daemon_msg() -> Seq<char> {
    "XDG_RUNTIME_DIR must be set to use the ides daemon"@
}

/// Where the daemon of a set listens: `daemon.sock` under the set's
/// runtime base under `XDG_RUNTIME_DIR`.
pub open spec fn socket_path_spec(base: Seq<char>, xdg: Option<Seq<char>>) -> Result<Seq<char>, Seq<char>> {
    match xdg {
        None => Err(no_xdg_daemon_msg()),
        Some(x) => if safe_relative(base) {
            Ok(join(join(x, base), "daemon.sock"@))
        } else {
            Err(crate::runtime::unsafe_base_msg())
        },
    }
}

/// The daemon socket of the set, given the value of `XDG_RUNTIME_DIR`.
pub fn socket_path(manifest: &Manifest, xdg_runtime_dir: Option<&str>) -> (r: Result<String, String>)
    ensures
        str_result(r) == socket_path_spec(manifest.runtime.base@, opt_view(xdg_runtime_dir)),
{
    let x = match xdg_runtime_dir {
        Some(x) => x,
        None => {
            return Err(own("XDG_RUNTIME_DIR must be set to use the ides daemon"));
        },
    };
    if !is_safe_relative_path(manifest.runtime.base.as_str()) {
        return Err(own("manifest runtime base must be relative and contain only normal path components"));
    }
    let root = path_join(x, manifest.runtime.base.as_str());
    Ok(path_join(root.as_str(), "daemon.sock"))
}

/// Law: the daemon socket lies under `XDG_RUNTIME_DIR`, below it only
/// plain names.
pub proof fn lemma_socket_stays_under(base: Seq<char>, x: Seq<char>)
    requires
        socket_path_spec(base, Some(x)) is Ok,
    ensures
        path_starts_with(socket_path_spec(base, Some(x))->Ok_0, x),
        all_normal(components(socket_path_spec(base, Some(x))->Ok_0).skip(components(x).len() as int)),
{
    let s = "daemon.sock"@;
    reveal_strlit("daemon.sock");
    assert(!s.contains('/')) by {
        if s.contains('/') {
            let k = choose|k: int| 0 <= k < s.len() && s[k] == '/';
            assert(s[k] != '/');
        }
    }
    assert(s != seq!['.']) by {
        assert(s.len() != 1);
    }
    assert(s != seq!['.', '.']) by {
        assert(s.len() != 2);
    }
    lemma_plain_name_safe(s);
    let root = join(x, base);
    lemma_join_components(x, base);
    lemma_join_components(root, s);
    let p = join(root, s);
    let cx = components(x);
    let cp = components(p);
    assert(cp =~= cx + components(base) + seq![crate::path::Comp::Normal(s)]);
    assert(cp.take(cx.len() as int) =~= cx);
    assert(cp.skip(cx.len() as int) =~= components(base) + seq![crate::path::Comp::Normal(s)]);
}

/// The unit name of a set's daemon: `ides-daemon-`, the first sixteen
/// characters of the set id, `.service`.
pub open spec fn daemon_unit_spec(set_id: Seq<char>) -> Seq<char> {
    let n = if set_id.len() < 16 {
        set_id.len() as int
    } else {
        16
    };
    "ides-daemon-"@ + set_id.take(n) + ".service"@
}

/// The unit name of the set's daemon.
pub fn daemon_unit_name(manifest: &Manifest) -> (r: String)
    ensures
        r@ == daemon_unit_spec(manifest.set_id@),
{
    let cs = chars_of(manifest.set_id.as_str());
    let n: usize = if cs.len() < 16 {
        cs.len()
    } else {
        16
    };
    let short = string_of(&cs, 0, n);
    assert(cs@.subrange(0, n as int) =~= manifest.set_id@.take(n as int));
    cat3("ides-daemon-", short.as_str(), ".service")
}

/// The properties the daemon unit is started with: it runs
/// `<exe> daemon --manifest <manifest_path>`, with `XDG_RUNTIME_DIR` passed
/// on when set.
pub open spec fn daemon_props_spec(
    name: Seq<char>,
    exe: Seq<char>,
    manifest_path: Seq<char>,
    xdg: Option<Seq<char>>,
) -> Seq<(Seq<char>, PropView)> {
    seq![
        ("Description"@, PropView::Str("ides daemon "@ + name)),
        ("CollectMode"@, PropView::Str("inactive-or-failed"@)),
        ("ExecStart"@, PropView::Commands(seq![(exe, seq![exe, "daemon"@, "--manifest"@, manifest_path], false)])),
        ("Environment"@, PropView::Strings(match xdg {
            Some(v) => seq!["XDG_RUNTIME_DIR="@ + v],
            None => seq![],
        })),
    ]
}

/// The properties of the set's daemon unit.
pub fn daemon_unit_properties(
    manifest: &Manifest,
    exe: &str,
    manifest_path: &str,
    xdg_runtime_dir: Option<&str>,
) -> (r: Vec<(String, PropertyValue)>)
    ensures
        props_view(r@) == daemon_props_spec(manifest.name@, exe@, manifest_path@, opt_view(xdg_runtime_dir)),
{
    let mut argv: Vec<String> = Vec::new();
    argv.push(own(exe));
    argv.push(own("daemon"));
    argv.push(own("--manifest"));
    argv.push(own(manifest_path));
    let ghost av = views(argv@);
    assert(av =~= seq![exe@, "daemon"@, "--manifest"@, manifest_path@]);
    let mut exec_start: Vec<(String, Vec<String>, bool)> = Vec::new();
    exec_start.push((own(exe), argv, false));
    assert(commands_view(exec_start@) =~= seq![(exe@, av, false)]);
    let mut environment: Vec<String> = Vec::new();
    if let Some(v) = xdg_runtime_dir {
        environment.push(cat("XDG_RUNTIME_DIR=", v));
    }
    let ghost ev = views(environment@);
    assert(ev =~= match opt_view(xdg_runtime_dir) {
        Some(v) => seq!["XDG_RUNTIME_DIR="@ + v],
        None => Seq::<Seq<char>>::empty(),
    });
    let mut props: Vec<(String, PropertyValue)> = Vec::new();
    props.push((own("Description"), PropertyValue::Str(cat("ides daemon ", manifest.name.as_str()))));
    props.push((own("CollectMode"), PropertyValue::Str(own("inactive-or-failed"))));
    props.push((own("ExecStart"), PropertyValue::Commands(exec_start)));
    props.push((own("Environment"), PropertyValue::Strings(environment)));
    assert(props_view(props@) =~= daemon_props_spec(manifest.name@, exe@, manifest_path@, opt_view(xdg_runtime_dir)));
    props
}

} // verus!

verus! {

/// What the daemon does next for a client.
pub enum ClientStep {
    /// Send the answer, then stop serving when `exit`.
    Reply { response: Response, exit: bool },
    /// Open a lease, then go on with `after_enter`.
    Enter { manifest_path: String, kind: String, root: String, pid: Option<u32> },
    /// Close a lease, then go on with `after_leave`.
    Leave { token: String },
    /// Renew a lease, then go on with `after_heartbeat`.
    Heartbeat { token: String },
    /// Stop the set's services, then go on with `after_stop`.
    StopSet,
}

/// The first step for a request line: a ping is answered at once, a line
/// that is no request gets its error back, and each lease request goes to
/// its lease operation.
pub fn handle_request(request: Result<Request, String>) -> (r: ClientStep)
    ensures
        match request {
            Err(e) => r matches ClientStep::Reply { response, exit } && !exit && !response.ok && response.error
                == Some(e) && response.token is None && !response.last,
            Ok(Request::Ping) => r matches ClientStep::Reply { response, exit } && !exit && response.ok
                && response.token is None && !response.last && response.error is None,
            Ok(Request::Enter { manifest_path, kind, root, pid }) => r == ClientStep::Enter {
                manifest_path,
                kind,
                root,
                pid,
            },
            Ok(Request::Leave { token }) => r == ClientStep::Leave { token },
            Ok(Request::Heartbeat { token }) => r == ClientStep::Heartbeat { token },
        },
{
    match request {
        Err(e) => ClientStep::Reply { response: Response::error(e), exit: false },
        Ok(Request::Ping) => ClientStep::Reply { response: Response::ok(), exit: false },
        Ok(Request::Enter { manifest_path, kind, root, pid }) => ClientStep::Enter { manifest_path, kind, root, pid },
        Ok(Request::Leave { token }) => ClientStep::Leave { token },
        Ok(Request::Heartbeat { token }) => ClientStep::Heartbeat { token },
    }
}

/// The answer once a lease was opened, or not.
pub fn after_enter(result: Result<String, String>) -> (r: ClientStep)
    ensures
        match result {
            Ok(t) => r matches ClientStep::Reply { response, exit } && !exit && response.ok && response.token == Some(t)
                && !response.last && response.error is None,
            Err(e) => r matches ClientStep::Reply { response, exit } && !exit && !response.ok && response.error
                == Some(e) && response.token is None && !response.last,
        },
{
    match result {
        Ok(t) => ClientStep::Reply { response: Response::token(t), exit: false },
        Err(e) => ClientStep::Reply { response: Response::error(e), exit: false },
    }
}

/// What follows closing a lease: stopping the set when it was the last
/// one, else an answer that it was not.
pub fn after_leave(result: Result<LeaveOutcome, String>) -> (r: ClientStep)
    ensures
        match result {
            Ok(o) => if o.last {
                r is StopSet
            } else {
                r matches ClientStep::Reply { response, exit } && !exit && response.ok && !response.last
                    && response.token is None && response.error is None
            },
            Err(e) => r matches ClientStep::Reply { response, exit } && !exit && !response.ok && response.error
                == Some(e) && response.token is None && !response.last,
        },
{
    match result {
        Ok(o) => if o.last {
            ClientStep::StopSet
        } else {
            ClientStep::Reply { response: Response::last(false), exit: false }
        },
        Err(e) => ClientStep::Reply { response: Response::error(e), exit: false },
    }
}

/// The answer once the set was stopped after its last lease left: the
/// daemon ends when that succeeded.
pub fn after_stop(result: Result<(), String>) -> (r: ClientStep)
    ensures
        match result {
            Ok(()) => r matches ClientStep::Reply { response, exit } && exit && response.ok && response.last
                && response.token is None && response.error is None,
            Err(e) => r matches ClientStep::Reply { response, exit } && !exit && !response.ok && response.error
                == Some(e) && response.token is None && !response.last,
        },
{
    match result {
        Ok(()) => ClientStep::Reply { response: Response::last(true), exit: true },
        Err(e) => ClientStep::Reply { response: Response::error(e), exit: false },
    }
}

/// The answer once a lease was renewed, or not.
pub fn after_heartbeat(result: Result<(), String>) -> (r: ClientStep)
    ensures
        match result {
            Ok(()) => r matches ClientStep::Reply { response, exit } && !exit && response.ok && !response.last
                && response.token is None && response.error is None,
            Err(e) => r matches ClientStep::Reply { response, exit } && !exit && !response.ok && response.error
                == Some(e) && response.token is None && !response.last,
        },
{
    match result {
        Ok(()) => ClientStep::Reply { response: Response::ok(), exit: false },
        Err(e) => ClientStep::Reply { response: Response::error(e), exit: false },
    }
}

/// What the daemon does when no client is waiting.
pub enum IdleStep {
    /// The last shells died: stop the set's services and end.
    StopSetAndExit,
    /// No lease has been held for too long: end.
    Exit,
    /// Wait a moment and look again.
    Sleep,
}

/// What an idle daemon does, given how many dead leases it just pruned,
/// how many leases are active, and whether it has been idle too long.
pub fn idle_step(pruned: usize, active: usize, idle_expired: bool) -> (r: IdleStep)
    ensures
        active == 0 && pruned > 0 ==> r is StopSetAndExit,
        active == 0 && pruned == 0 && idle_expired ==> r is Exit,
        active > 0 || (pruned == 0 && !idle_expired) ==> r is Sleep,
{
    if active == 0 && pruned > 0 {
        IdleStep::StopSetAndExit
    } else if active == 0 && idle_expired {
        IdleStep::Exit
    } else {
        IdleStep::Sleep
    }
}

} // verus!
