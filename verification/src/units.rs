//! The systemd units of a service: its service unit, the socket, path or
//! timer unit that activates it, and the names of the options those
//! activation units take.
use vstd::prelude::*;

use crate::manifest::{unit_name_spec, Service};
use crate::text::{cat3, chars_of, own, slice_eq_str, str_eq, string_of};

verus! {

/// The kind of unit that activates a service.
#[derive(Clone, Copy, PartialEq, Eq, Structural, Debug)]
pub enum ActivationKind {
    Socket,
    Path,
    Timer,
}

/// The unit-name suffix of an activation kind.
pub open spec fn suffix_spec(k: ActivationKind) -> Seq<char> {
    match k {
        ActivationKind::Socket => "socket"@,
        ActivationKind::Path => "path"@,
        ActivationKind::Timer => "timer"@,
    }
}

impl ActivationKind {
    /// The unit-name suffix: `socket`, `path` or `timer`.
    pub fn suffix(self) -> (r: &'static str)
        ensures
            r@ == suffix_spec(self),
    {
        match self {
            ActivationKind::Socket => "socket",
            ActivationKind::Path => "path",
            ActivationKind::Timer => "timer",
        }
    }
}

/// The activation kinds a service configures, in the order socket, path,
/// timer.
pub open spec fn configured_kinds(service: Service) -> Seq<ActivationKind> {
    (if service.activation.socket@.len() > 0 {
        seq![ActivationKind::Socket]
    } else {
        seq![]
    }) + (if service.activation.path@.len() > 0 {
        seq![ActivationKind::Path]
    } else {
        seq![]
    }) + (if service.activation.timer@.len() > 0 {
        seq![ActivationKind::Timer]
    } else {
        seq![]
    })
}

/// The message for a service that configures several activation kinds.
pub open spec fn several_kinds_msg() -> Seq<char> {
    "a service can use only one activation unit type at a time"@
}

/// The activation kind of a service: none, the one it configures, or an
/// error when it configures several.
pub open spec fn activation_kind_spec(service: Service) -> Result<Option<ActivationKind>, Seq<char>> {
    let ks = configured_kinds(service);
    if ks.len() == 0 {
        Ok(None)
    } else if ks.len() == 1 {
        Ok(Some(ks[0]))
    } else {
        Err(several_kinds_msg())
    }
}

/// The activation kind of a service.
pub fn activation_kind(service: &Service) -> (r: Result<Option<ActivationKind>, String>)
    ensures
        r matches Ok(k) ==> activation_kind_spec(*service) == Ok::<Option<ActivationKind>, Seq<char>>(k),
        r matches Err(e) ==> activation_kind_spec(*service) == Err::<Option<ActivationKind>, Seq<char>>(e@),
{
    let mut kinds: Vec<ActivationKind> = Vec::new();
    if !service.activation.socket.is_empty() {
        kinds.push(ActivationKind::Socket);
    }
    if !service.activation.path.is_empty() {
        kinds.push(ActivationKind::Path);
    }
    if !service.activation.timer.is_empty() {
        kinds.push(ActivationKind::Timer);
    }
    assert(kinds@ =~= configured_kinds(*service));
    if kinds.len() == 0 {
        Ok(None)
    } else if kinds.len() == 1 {
        Ok(Some(kinds[0]))
    } else {
        Err(own("a service can use only one activation unit type at a time"))
    }
}

/// The stem of a service's unit name: its systemd unit name without
/// `.service`, or its unit name when the systemd name has another suffix.
pub open spec fn unit_stem_spec(unit_name: Seq<char>) -> Seq<char> {
    let u = unit_name_spec(unit_name);
    let n = ".service"@.len();
    if u.len() >= n && u.skip(u.len() - n) == ".service"@ {
        u.take(u.len() - n)
    } else {
        unit_name
    }
}

/// The stem of the service's unit name.
pub fn service_unit_stem(service: &Service) -> (r: String)
    ensures
        r@ == unit_stem_spec(service.unit_name@),
{
    let u = service.systemd_unit_name();
    let cs = chars_of(u.as_str());
    let n: usize = 8;
    proof {
        reveal_strlit(".service");
    }
    if cs.len() >= n && slice_eq_str(&cs, cs.len() - n, cs.len(), ".service") {
        assert(cs@.subrange(cs@.len() - 8, cs@.len() as int) =~= cs@.skip(cs@.len() - 8));
        let r = string_of(&cs, 0, cs.len() - n);
        assert(cs@.subrange(0, cs@.len() - 8) =~= cs@.take(cs@.len() - 8));
        r
    } else {
        proof {
            if cs@.len() >= 8 {
                assert(cs@.subrange(cs@.len() - 8, cs@.len() as int) =~= cs@.skip(cs@.len() - 8));
            }
        }
        own(service.unit_name.as_str())
    }
}

/// The name of the unit of kind `kind` that activates a service.
pub open spec fn activation_unit_name_spec(unit_name: Seq<char>, kind: ActivationKind) -> Seq<char> {
    unit_stem_spec(unit_name) + "."@ + suffix_spec(kind)
}

/// The name of the activation unit of kind `kind` of a service.
pub fn activation_unit_name(service: &Service, kind: ActivationKind) -> (r: String)
    ensures
        r@ == activation_unit_name_spec(service.unit_name@, kind),
{
    let stem = service_unit_stem(service);
    cat3(stem.as_str(), ".", kind.suffix())
}

/// The unit started for a service: its activation unit when it has one,
/// else its service unit.
pub open spec fn start_unit_spec(service: Service) -> Result<Seq<char>, Seq<char>> {
    match activation_kind_spec(service) {
        Err(e) => Err(e),
        Ok(Some(k)) => Ok(activation_unit_name_spec(service.unit_name@, k)),
        Ok(None) => Ok(unit_name_spec(service.unit_name@)),
    }
}

/// The unit started for a service.
pub fn service_start_unit_name(service: &Service) -> (r: Result<String, String>)
    ensures
        crate::text::str_result(r) == start_unit_spec(*service),
{
    match activation_kind(service)? {
        Some(kind) => Ok(activation_unit_name(service, kind)),
        None => Ok(service.systemd_unit_name()),
    }
}

/// The activation units of a service, one for each kind it configures.
pub open spec fn activation_specs_spec(service: Service) -> Seq<(ActivationKind, Seq<char>)> {
    configured_kinds(service).map_values(
        |k: ActivationKind| (k, activation_unit_name_spec(service.unit_name@, k)),
    )
}

/// The view of a list of activation units.
pub open spec fn spec_pairs_view(v: Seq<(ActivationKind, String)>) -> Seq<(ActivationKind, Seq<char>)> {
    v.map_values(|e: (ActivationKind, String)| (e.0, e.1@))
}

/// The activation units of a service, with their kinds.
pub fn activation_unit_specs(service: &Service) -> (r: Vec<(ActivationKind, String)>)
    ensures
        spec_pairs_view(r@) == activation_specs_spec(*service),
{
    let mut units: Vec<(ActivationKind, String)> = Vec::new();
    if !service.activation.socket.is_empty() {
        units.push((ActivationKind::Socket, activation_unit_name(service, ActivationKind::Socket)));
    }
    if !service.activation.path.is_empty() {
        units.push((ActivationKind::Path, activation_unit_name(service, ActivationKind::Path)));
    }
    if !service.activation.timer.is_empty() {
        units.push((ActivationKind::Timer, activation_unit_name(service, ActivationKind::Timer)));
    }
    assert(spec_pairs_view(units@) =~= activation_specs_spec(*service));
    units
}

/// The names of the activation units of a service.
pub fn activation_unit_names(service: &Service) -> (r: Result<Vec<String>, String>)
    ensures
        r matches Ok(v) && crate::strmap::views(v@) == activation_specs_spec(*service).map_values(
            |e: (ActivationKind, Seq<char>)| e.1,
        ),
{
    let specs = activation_unit_specs(service);
    let mut names: Vec<String> = Vec::new();
    let mut i: usize = 0;
    while i < specs.len()
        invariant
            i <= specs@.len(),
            spec_pairs_view(specs@) == activation_specs_spec(*service),
            crate::strmap::views(names@) == spec_pairs_view(specs@).take(i as int).map_values(
                |e: (ActivationKind, Seq<char>)| e.1,
            ),
        decreases specs.len() - i,
    {
        let ghost prev = names@;
        names.push(own(specs[i].1.as_str()));
        assert(crate::strmap::views(names@) =~= crate::strmap::views(prev).push(specs@[i as int].1@));
        assert(spec_pairs_view(specs@).take(i + 1) =~= spec_pairs_view(specs@).take(i as int).push(
            spec_pairs_view(specs@)[i as int],
        ));
        assert(crate::strmap::views(names@) =~= spec_pairs_view(specs@).take(i + 1).map_values(
            |e: (ActivationKind, Seq<char>)| e.1,
        ));
        i = i + 1;
    }
    assert(spec_pairs_view(specs@).take(specs@.len() as int) =~= spec_pairs_view(specs@));
    Ok(names)
}

/// The conditions a path unit watches for.
pub open spec fn is_path_condition(name: Seq<char>) -> bool {
    name == "PathExists"@ || name == "PathExistsGlob"@ || name == "PathChanged"@ || name
        == "PathModified"@ || name == "PathDirectoryNotEmpty"@
}

/// The message for a path condition systemd would not understand here.
pub open spec fn path_condition_msg(name: Seq<char>) -> Seq<char> {
    "`"@ + name + "` is not supported by ides path activation lowering yet"@
}

/// Whether `name` is one of the path conditions.
pub fn is_path_condition_name(name: &str) -> (r: bool)
    ensures
        r == is_path_condition(name@),
{
    str_eq(name, "PathExists") || str_eq(name, "PathExistsGlob") || str_eq(name, "PathChanged")
        || str_eq(name, "PathModified") || str_eq(name, "PathDirectoryNotEmpty")
}

/// A path condition, checked.
pub fn path_condition(name: &str) -> (r: Result<String, String>)
    ensures
        is_path_condition(name@) ==> (r matches Ok(c) && c@ == name@),
        !is_path_condition(name@) ==> (r matches Err(e) && e@ == path_condition_msg(name@)),
{
    if is_path_condition_name(name) {
        Ok(own(name))
    } else {
        Err(cat3("`", name, "` is not supported by ides path activation lowering yet"))
    }
}

/// The listen type of a socket option, for the `Listen…` options.
pub open spec fn listen_type_spec(name: Seq<char>) -> Option<Seq<char>> {
    if name == "ListenDatagram"@ {
        Some("Datagram"@)
    } else if name == "ListenFIFO"@ {
        Some("FIFO"@)
    } else if name == "ListenMessageQueue"@ {
        Some("MessageQueue"@)
    } else if name == "ListenNetlink"@ {
        Some("Netlink"@)
    } else if name == "ListenSequentialPacket"@ {
        Some("SequentialPacket"@)
    } else if name == "ListenSpecial"@ {
        Some("Special"@)
    } else if name == "ListenStream"@ {
        Some("Stream"@)
    } else if name == "ListenUSBFunction"@ {
        Some("USBFunction"@)
    } else {
        None
    }
}

/// The listen type of a socket option.
pub fn socket_listen_type(name: &str) -> (r: Option<&'static str>)
    ensures
        match listen_type_spec(name@) {
            Some(t) => r matches Some(x) && x@ == t,
            None => r is None,
        },
{
    if str_eq(name, "ListenDatagram") {
        Some("Datagram")
    } else if str_eq(name, "ListenFIFO") {
        Some("FIFO")
    } else if str_eq(name, "ListenMessageQueue") {
        Some("MessageQueue")
    } else if str_eq(name, "ListenNetlink") {
        Some("Netlink")
    } else if str_eq(name, "ListenSequentialPacket") {
        Some("SequentialPacket")
    } else if str_eq(name, "ListenSpecial") {
        Some("Special")
    } else if str_eq(name, "ListenStream") {
        Some("Stream")
    } else if str_eq(name, "ListenUSBFunction") {
        Some("USBFunction")
    } else {
        None
    }
}

/// Law: the listen type of a socket option is the option's name without
/// its `Listen` prefix, and each of the eight `Listen` options has one.
pub proof fn lemma_listen_type_is_suffix(name: Seq<char>)
    ensures
        listen_type_spec(name) matches Some(t) ==> name == "Listen"@ + t,
        listen_type_spec("Listen"@ + "Datagram"@) == Some("Datagram"@),
        listen_type_spec("Listen"@ + "FIFO"@) == Some("FIFO"@),
        listen_type_spec("Listen"@ + "MessageQueue"@) == Some("MessageQueue"@),
        listen_type_spec("Listen"@ + "Netlink"@) == Some("Netlink"@),
        listen_type_spec("Listen"@ + "SequentialPacket"@) == Some("SequentialPacket"@),
        listen_type_spec("Listen"@ + "Special"@) == Some("Special"@),
        listen_type_spec("Listen"@ + "Stream"@) == Some("Stream"@),
        listen_type_spec("Listen"@ + "USBFunction"@) == Some("USBFunction"@),
{
    reveal_strlit("Listen");
    assert("Listen"@.len() == 6);
    reveal_strlit("Datagram");
    reveal_strlit("ListenDatagram");
    assert("Datagram"@.len() == 8);
    assert("ListenDatagram"@.len() == 14);
    assert("ListenDatagram"@ =~= "Listen"@ + "Datagram"@);
    reveal_strlit("FIFO");
    reveal_strlit("ListenFIFO");
    assert("FIFO"@.len() == 4);
    assert("ListenFIFO"@.len() == 10);
    assert("ListenFIFO"@ =~= "Listen"@ + "FIFO"@);
    reveal_strlit("MessageQueue");
    reveal_strlit("ListenMessageQueue");
    assert("MessageQueue"@.len() == 12);
    assert("ListenMessageQueue"@.len() == 18);
    assert("ListenMessageQueue"@ =~= "Listen"@ + "MessageQueue"@);
    reveal_strlit("Netlink");
    reveal_strlit("ListenNetlink");
    assert("Netlink"@.len() == 7);
    assert("ListenNetlink"@.len() == 13);
    assert("ListenNetlink"@ =~= "Listen"@ + "Netlink"@);
    reveal_strlit("SequentialPacket");
    reveal_strlit("ListenSequentialPacket");
    assert("SequentialPacket"@.len() == 16);
    assert("ListenSequentialPacket"@.len() == 22);
    assert("ListenSequentialPacket"@ =~= "Listen"@ + "SequentialPacket"@);
    reveal_strlit("Special");
    reveal_strlit("ListenSpecial");
    assert("Special"@.len() == 7);
    assert("ListenSpecial"@.len() == 13);
    assert("ListenSpecial"@ =~= "Listen"@ + "Special"@);
    reveal_strlit("Stream");
    reveal_strlit("ListenStream");
    assert("Stream"@.len() == 6);
    assert("ListenStream"@.len() == 12);
    assert("ListenStream"@ =~= "Listen"@ + "Stream"@);
    reveal_strlit("USBFunction");
    reveal_strlit("ListenUSBFunction");
    assert("USBFunction"@.len() == 11);
    assert("ListenUSBFunction"@.len() == 17);
    assert("ListenUSBFunction"@ =~= "Listen"@ + "USBFunction"@);
    assert("ListenSpecial"@[6] != "ListenNetlink"@[6]);
    assert("ListenSpecial"@ != "ListenNetlink"@);
}

/// The monotonic timer options, each its own base.
pub open spec fn monotonic_base_spec(name: Seq<char>) -> Option<Seq<char>> {
    if name == "OnActiveSec"@ || name == "OnBootSec"@ || name == "OnStartupSec"@ || name
        == "OnUnitActiveSec"@ || name == "OnUnitInactiveSec"@ {
        Some(name)
    } else {
        None
    }
}

/// The base of a monotonic timer option.
pub fn timer_monotonic_base(name: &str) -> (r: Option<&'static str>)
    ensures
        match monotonic_base_spec(name@) {
            Some(t) => r matches Some(x) && x@ == t,
            None => r is None,
        },
{
    if str_eq(name, "OnActiveSec") {
        Some("OnActiveSec")
    } else if str_eq(name, "OnBootSec") {
        Some("OnBootSec")
    } else if str_eq(name, "OnStartupSec") {
        Some("OnStartupSec")
    } else if str_eq(name, "OnUnitActiveSec") {
        Some("OnUnitActiveSec")
    } else if str_eq(name, "OnUnitInactiveSec") {
        Some("OnUnitInactiveSec")
    } else {
        None
    }
}

/// The message for an activation option that is not lowered.
pub open spec fn unsupported_msg(kind: Seq<char>, option: Seq<char>) -> Seq<char> {
    "`"@ + option + "` is not supported by ides transient "@ + kind + " activation lowering yet"@
}

/// Builds `unsupported_msg(kind, option)`.
pub fn unsupported_activation(kind: &str, option: &str) -> (r: String)
    ensures
        r@ == unsupported_msg(kind@, option@),
{
    let a = cat3("`", option, "` is not supported by ides transient ");
    cat3(a.as_str(), kind, " activation lowering yet")
}

/// A command run through the set's shell: `<shell> -lc <command>`.
pub fn shell_exec_command(runtime_shell: &str, command: &str, ignore_failure: bool) -> (r: (
    String,
    Vec<String>,
    bool,
))
    ensures
        r.0@ == runtime_shell@,
        crate::strmap::views(r.1@) == seq![runtime_shell@, "-lc"@, command@],
        r.2 == ignore_failure,
{
    let mut argv: Vec<String> = Vec::new();
    argv.push(own(runtime_shell));
    argv.push(own("-lc"));
    argv.push(own(command));
    assert(crate::strmap::views(argv@) =~= seq![runtime_shell@, "-lc"@, command@]);
    (own(runtime_shell), argv, ignore_failure)
}

} // verus!
