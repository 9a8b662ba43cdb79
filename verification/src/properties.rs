//! The properties a transient unit is started with: the service unit's
//! commands, environment and settings, and the options of its socket, path
//! or timer unit, each lowered to the value systemd expects.
use vstd::prelude::*;

use crate::runtime::PreparedRuntime;
use crate::strmap::{views, StrMap};
use crate::units::{
    is_path_condition, is_path_condition_name, listen_type_spec, monotonic_base_spec, path_condition,
    shell_exec_command, socket_listen_type, suffix_spec, timer_monotonic_base, unsupported_activation, unsupported_msg,
    ActivationKind,
};
use crate::manifest::{
    command_spec, ignore_failure_spec, systemd_argv_spec, Exec, Manifest, Service, ServiceSystemd,
    SystemdExecCommand,
};
use crate::text::{cat3, chars_of, opt_str, own, slice_eq_str, str_eq};
use crate::values::{
    bool_error_msg, expect_one, int_error_msg, int_error_text, parse_bool, parse_bool_spec,
    parse_duration_spec, parse_duration_usec, parse_i32, parse_int_spec, parse_mode,
    parse_mode_spec, parse_u32, parse_u64,
};

verus! {

/// The value of a unit property, as systemd's D-Bus interface types it.
pub enum PropertyValue {
    Str(String),
    Bool(bool),
    U32(u32),
    I32(i32),
    U64(u64),
    Strings(Vec<String>),
    Commands(Vec<(String, Vec<String>, bool)>),
    Pairs(Vec<(String, String)>),
    Timers(Vec<(String, u64)>),
    Paths(Vec<(String, String)>),
}

/// A property value as plain values.
pub enum PropView {
    Str(Seq<char>),
    Bool(bool),
    U32(u32),
    I32(i32),
    U64(u64),
    Strings(Seq<Seq<char>>),
    Commands(Seq<(Seq<char>, Seq<Seq<char>>, bool)>),
    Pairs(Seq<(Seq<char>, Seq<char>)>),
    Timers(Seq<(Seq<char>, u64)>),
    Paths(Seq<(Seq<char>, Seq<char>)>),
}

/// The view of a list of commands.
pub open spec fn commands_view(v: Seq<(String, Vec<String>, bool)>) -> Seq<(Seq<char>, Seq<Seq<char>>, bool)> {
    v.map_values(|c: (String, Vec<String>, bool)| (c.0@, views(c.1@), c.2))
}

/// The view of a list of string pairs.
pub open spec fn pairs_view(v: Seq<(String, String)>) -> Seq<(Seq<char>, Seq<char>)> {
    v.map_values(|p: (String, String)| (p.0@, p.1@))
}

/// The view of a list of timers.
pub open spec fn timers_view(v: Seq<(String, u64)>) -> Seq<(Seq<char>, u64)> {
    v.map_values(|p: (String, u64)| (p.0@, p.1))
}

impl View for PropertyValue {
    type V = PropView;

    open spec fn view(&self) -> PropView {
        match self {
            PropertyValue::Str(s) => PropView::Str(s@),
            PropertyValue::Bool(b) => PropView::Bool(*b),
            PropertyValue::U32(n) => PropView::U32(*n),
            PropertyValue::I32(n) => PropView::I32(*n),
            PropertyValue::U64(n) => PropView::U64(*n),
            PropertyValue::Strings(v) => PropView::Strings(views(v@)),
            PropertyValue::Commands(v) => PropView::Commands(commands_view(v@)),
            PropertyValue::Pairs(v) => PropView::Pairs(pairs_view(v@)),
            PropertyValue::Timers(v) => PropView::Timers(timers_view(v@)),
            PropertyValue::Paths(v) => PropView::Paths(pairs_view(v@)),
        }
    }
}

/// The view of a list of properties.
pub open spec fn props_view(v: Seq<(String, PropertyValue)>) -> Seq<(Seq<char>, PropView)> {
    v.map_values(|p: (String, PropertyValue)| (p.0@, p.1@))
}

/// How an option's values become a property value.
#[derive(Clone, Copy, PartialEq, Eq, Structural, Debug)]
pub enum Lowering {
    Bool,
    Str,
    U32,
    I32,
    U64,
    Mode,
    Duration,
    List,
}

/// The one value of an option that takes one.
pub open spec fn expect_one_spec(option: Seq<char>, values: Seq<Seq<char>>) -> Result<Seq<char>, Seq<char>> {
    if values.len() == 1 {
        Ok(values[0])
    } else if values.len() == 0 {
        Err(option + " requires one value"@)
    } else {
        Err(option + " accepts only one value"@)
    }
}

/// The message for a value that is not an integer of the option's type.
pub open spec fn int_value_msg(option: Seq<char>, k: crate::values::IntErrorKind) -> Seq<char> {
    "invalid "@ + option + " value: "@ + int_error_msg(k)
}

/// The property value of an option with values `values`, lowered as
/// `how` says.
pub open spec fn lower_spec(option: Seq<char>, how: Lowering, values: Seq<Seq<char>>) -> Result<PropView, Seq<char>> {
    if how == Lowering::List {
        Ok(PropView::Strings(values))
    } else {
        match expect_one_spec(option, values) {
            Err(e) => Err(e),
            Ok(v) => match how {
                Lowering::Bool => match parse_bool_spec(v) {
                    Some(b) => Ok(PropView::Bool(b)),
                    None => Err(bool_error_msg(option, v)),
                },
                Lowering::Str => Ok(PropView::Str(v)),
                Lowering::U32 => match parse_int_spec(v, 10, false, 0, u32::MAX as int) {
                    Ok(n) => Ok(PropView::U32(n as u32)),
                    Err(k) => Err(int_value_msg(option, k)),
                },
                Lowering::I32 => match parse_int_spec(v, 10, true, i32::MIN as int, i32::MAX as int) {
                    Ok(n) => Ok(PropView::I32(n as i32)),
                    Err(k) => Err(int_value_msg(option, k)),
                },
                Lowering::U64 => match parse_int_spec(v, 10, false, 0, u64::MAX as int) {
                    Ok(n) => Ok(PropView::U64(n as u64)),
                    Err(k) => Err(int_value_msg(option, k)),
                },
                Lowering::Mode => match parse_mode_spec(option, v) {
                    Ok(m) => Ok(PropView::U32(m)),
                    Err(e) => Err(e),
                },
                Lowering::Duration => match parse_duration_spec(option, v) {
                    Ok(d) => Ok(PropView::U64(d)),
                    Err(e) => Err(e),
                },
                Lowering::List => Ok(PropView::Strings(values)),
            },
        }
    }
}

/// `properties` after lowering one option into property `dbus_name`.
pub open spec fn pushed(
    before: Seq<(String, PropertyValue)>,
    after: Seq<(String, PropertyValue)>,
    dbus_name: Seq<char>,
    lowered: Result<PropView, Seq<char>>,
    r: Result<(), String>,
) -> bool {
    match lowered {
        Ok(pv) => r is Ok && props_view(after) == props_view(before).push((dbus_name, pv)),
        Err(e) => (r matches Err(x) && x@ == e) && after == before,
    }
}

/// The message for an integer parse error of option `option`.
fn int_value_error(option: &str, k: crate::values::IntErrorKind) -> (r: String)
    ensures
        r@ == int_value_msg(option@, k),
{
    let m = int_error_text(k);
    cat3("invalid ", option, " value: ").concat(m.as_str())
}

/// Adds the boolean option `option_name` as `dbus_name`.
pub fn push_bool(
    properties: &mut Vec<(String, PropertyValue)>,
    dbus_name: &str,
    option_name: &str,
    values: &[String],
) -> (r: Result<(), String>)
    ensures
        pushed(old(properties)@, final(properties)@, dbus_name@, lower_spec(option_name@, Lowering::Bool, views(values@)), r),
{
    let v = expect_one(option_name, values)?;
    let b = parse_bool(option_name, v)?;
    properties.push((own(dbus_name), PropertyValue::Bool(b)));
    assert(props_view(properties@) =~= props_view(old(properties)@).push((dbus_name@, PropView::Bool(b))));
    Ok(())
}

/// Adds the string option `option_name` as `dbus_name`.
pub fn push_string(
    properties: &mut Vec<(String, PropertyValue)>,
    dbus_name: &str,
    option_name: &str,
    values: &[String],
) -> (r: Result<(), String>)
    ensures
        pushed(old(properties)@, final(properties)@, dbus_name@, lower_spec(option_name@, Lowering::Str, views(values@)), r),
{
    let v = expect_one(option_name, values)?;
    properties.push((own(dbus_name), PropertyValue::Str(own(v))));
    assert(props_view(properties@) =~= props_view(old(properties)@).push((dbus_name@, PropView::Str(v@))));
    Ok(())
}

/// Adds the `u32` option `option_name` as `dbus_name`.
pub fn push_u32(
    properties: &mut Vec<(String, PropertyValue)>,
    dbus_name: &str,
    option_name: &str,
    values: &[String],
) -> (r: Result<(), String>)
    ensures
        pushed(old(properties)@, final(properties)@, dbus_name@, lower_spec(option_name@, Lowering::U32, views(values@)), r),
{
    let v = expect_one(option_name, values)?;
    let n = match parse_u32(v) {
        Ok(n) => n,
        Err(k) => {
            return Err(int_value_error(option_name, k));
        },
    };
    properties.push((own(dbus_name), PropertyValue::U32(n)));
    assert(props_view(properties@) =~= props_view(old(properties)@).push((dbus_name@, PropView::U32(n))));
    Ok(())
}

/// Adds the `i32` option `option_name` as `dbus_name`.
pub fn push_i32(
    properties: &mut Vec<(String, PropertyValue)>,
    dbus_name: &str,
    option_name: &str,
    values: &[String],
) -> (r: Result<(), String>)
    ensures
        pushed(old(properties)@, final(properties)@, dbus_name@, lower_spec(option_name@, Lowering::I32, views(values@)), r),
{
    let v = expect_one(option_name, values)?;
    let n = match parse_i32(v) {
        Ok(n) => n,
        Err(k) => {
            return Err(int_value_error(option_name, k));
        },
    };
    properties.push((own(dbus_name), PropertyValue::I32(n)));
    assert(props_view(properties@) =~= props_view(old(properties)@).push((dbus_name@, PropView::I32(n))));
    Ok(())
}

/// Adds the `u64` option `option_name` as `dbus_name`.
pub fn push_u64(
    properties: &mut Vec<(String, PropertyValue)>,
    dbus_name: &str,
    option_name: &str,
    values: &[String],
) -> (r: Result<(), String>)
    ensures
        pushed(old(properties)@, final(properties)@, dbus_name@, lower_spec(option_name@, Lowering::U64, views(values@)), r),
{
    let v = expect_one(option_name, values)?;
    let n = match parse_u64(v) {
        Ok(n) => n,
        Err(k) => {
            return Err(int_value_error(option_name, k));
        },
    };
    properties.push((own(dbus_name), PropertyValue::U64(n)));
    assert(props_view(properties@) =~= props_view(old(properties)@).push((dbus_name@, PropView::U64(n))));
    Ok(())
}

/// Adds the file-mode option `option_name` as `dbus_name`.
pub fn push_mode(
    properties: &mut Vec<(String, PropertyValue)>,
    dbus_name: &str,
    option_name: &str,
    values: &[String],
) -> (r: Result<(), String>)
    ensures
        pushed(old(properties)@, final(properties)@, dbus_name@, lower_spec(option_name@, Lowering::Mode, views(values@)), r),
{
    let v = expect_one(option_name, values)?;
    let m = parse_mode(option_name, v)?;
    properties.push((own(dbus_name), PropertyValue::U32(m)));
    assert(props_view(properties@) =~= props_view(old(properties)@).push((dbus_name@, PropView::U32(m))));
    Ok(())
}

/// Adds the duration option `option_name` as `dbus_name`, in
/// microseconds.
pub fn push_duration(
    properties: &mut Vec<(String, PropertyValue)>,
    dbus_name: &str,
    option_name: &str,
    values: &[String],
) -> (r: Result<(), String>)
    ensures
        pushed(old(properties)@, final(properties)@, dbus_name@, lower_spec(option_name@, Lowering::Duration, views(values@)), r),
{
    let v = expect_one(option_name, values)?;
    let d = parse_duration_usec(option_name, v)?;
    properties.push((own(dbus_name), PropertyValue::U64(d)));
    assert(props_view(properties@) =~= props_view(old(properties)@).push((dbus_name@, PropView::U64(d))));
    Ok(())
}

/// A copy of a list of strings.
fn clone_strings(values: &[String]) -> (r: Vec<String>)
    ensures
        views(r@) == views(values@),
{
    let mut out: Vec<String> = Vec::new();
    let mut i: usize = 0;
    while i < values.len()
        invariant
            i <= values@.len(),
            views(out@) == views(values@).take(i as int),
        decreases values.len() - i,
    {
        let ghost prev = out@;
        out.push(own(values[i].as_str()));
        assert(views(out@) =~= views(prev).push(values@[i as int]@));
        assert(views(values@).take(i + 1) =~= views(values@).take(i as int).push(values@[i as int]@));
        i = i + 1;
    }
    assert(views(values@).take(values@.len() as int) =~= views(values@));
    out
}

/// Adds option `option_name` as `dbus_name`, lowered as `how` says.
pub fn push_lowered(
    properties: &mut Vec<(String, PropertyValue)>,
    dbus_name: &str,
    option_name: &str,
    how: Lowering,
    values: &[String],
) -> (r: Result<(), String>)
    ensures
        pushed(old(properties)@, final(properties)@, dbus_name@, lower_spec(option_name@, how, views(values@)), r),
{
    match how {
        Lowering::Bool => push_bool(properties, dbus_name, option_name, values),
        Lowering::Str => push_string(properties, dbus_name, option_name, values),
        Lowering::U32 => push_u32(properties, dbus_name, option_name, values),
        Lowering::I32 => push_i32(properties, dbus_name, option_name, values),
        Lowering::U64 => push_u64(properties, dbus_name, option_name, values),
        Lowering::Mode => push_mode(properties, dbus_name, option_name, values),
        Lowering::Duration => push_duration(properties, dbus_name, option_name, values),
        Lowering::List => {
            let v = clone_strings(values);
            properties.push((own(dbus_name), PropertyValue::Strings(v)));
            assert(props_view(properties@) =~= props_view(old(properties)@).push(
                (dbus_name@, PropView::Strings(views(values@))),
            ));
            Ok(())
        },
    }
}

} // verus!

verus! {
/// The socket options that become one property each: the property's name and how the option is lowered.
pub open spec fn socket_option_spec(name: Seq<char>) -> Option<(Seq<char>, Lowering)> {
    if name == "Accept"@ {
        Some(("Accept"@, Lowering::Bool))
    } else if name == "Backlog"@ {
        Some(("Backlog"@, Lowering::U32))
    } else if name == "BindIPv6Only"@ {
        Some(("BindIPv6Only"@, Lowering::Str))
    } else if name == "BindToDevice"@ {
        Some(("BindToDevice"@, Lowering::Str))
    } else if name == "Broadcast"@ {
        Some(("Broadcast"@, Lowering::Bool))
    } else if name == "DeferAcceptSec"@ {
        Some(("DeferAcceptUSec"@, Lowering::Duration))
    } else if name == "DirectoryMode"@ {
        Some(("DirectoryMode"@, Lowering::Mode))
    } else if name == "FileDescriptorName"@ {
        Some(("FileDescriptorName"@, Lowering::Str))
    } else if name == "FlushPending"@ {
        Some(("FlushPending"@, Lowering::Bool))
    } else if name == "FreeBind"@ {
        Some(("FreeBind"@, Lowering::Bool))
    } else if name == "IPTOS"@ {
        Some(("IPTOS"@, Lowering::I32))
    } else if name == "IPTTL"@ {
        Some(("IPTTL"@, Lowering::I32))
    } else if name == "KeepAlive"@ {
        Some(("KeepAlive"@, Lowering::Bool))
    } else if name == "KeepAliveIntervalSec"@ {
        Some(("KeepAliveIntervalUSec"@, Lowering::Duration))
    } else if name == "KeepAliveProbes"@ {
        Some(("KeepAliveProbes"@, Lowering::U32))
    } else if name == "KeepAliveTimeSec"@ {
        Some(("KeepAliveTimeUSec"@, Lowering::Duration))
    } else if name == "Mark"@ {
        Some(("Mark"@, Lowering::I32))
    } else if name == "MaxConnections"@ {
        Some(("MaxConnections"@, Lowering::U32))
    } else if name == "MaxConnectionsPerSource"@ {
        Some(("MaxConnectionsPerSource"@, Lowering::U32))
    } else if name == "NoDelay"@ {
        Some(("NoDelay"@, Lowering::Bool))
    } else if name == "PassCredentials"@ {
        Some(("PassCredentials"@, Lowering::Bool))
    } else if name == "PassEnvironment"@ {
        Some(("PassEnvironment"@, Lowering::List))
    } else if name == "PassPacketInfo"@ {
        Some(("PassPacketInfo"@, Lowering::Bool))
    } else if name == "PassSecurity"@ {
        Some(("PassSecurity"@, Lowering::Bool))
    } else if name == "PipeSize"@ {
        Some(("PipeSize"@, Lowering::U64))
    } else if name == "Priority"@ {
        Some(("Priority"@, Lowering::I32))
    } else if name == "ReceiveBuffer"@ {
        Some(("ReceiveBuffer"@, Lowering::U64))
    } else if name == "RemoveOnStop"@ {
        Some(("RemoveOnStop"@, Lowering::Bool))
    } else if name == "SendBuffer"@ {
        Some(("SendBuffer"@, Lowering::U64))
    } else if name == "SocketGroup"@ {
        Some(("SocketGroup"@, Lowering::Str))
    } else if name == "SocketMode"@ {
        Some(("SocketMode"@, Lowering::Mode))
    } else if name == "SocketProtocol"@ {
        Some(("SocketProtocol"@, Lowering::I32))
    } else if name == "SocketUser"@ {
        Some(("SocketUser"@, Lowering::Str))
    } else if name == "Symlinks"@ {
        Some(("Symlinks"@, Lowering::List))
    } else if name == "TCPCongestion"@ {
        Some(("TCPCongestion"@, Lowering::Str))
    } else if name == "TimeoutSec"@ {
        Some(("TimeoutUSec"@, Lowering::Duration))
    } else if name == "Timestamping"@ {
        Some(("Timestamping"@, Lowering::Str))
    } else if name == "Transparent"@ {
        Some(("Transparent"@, Lowering::Bool))
    } else if name == "TriggerLimitBurst"@ {
        Some(("TriggerLimitBurst"@, Lowering::U32))
    } else if name == "TriggerLimitIntervalSec"@ {
        Some(("TriggerLimitIntervalUSec"@, Lowering::Duration))
    } else if name == "Writable"@ {
        Some(("Writable"@, Lowering::Bool))
    } else {
        None
    }
}

/// The property and lowering of a socket option.
pub fn socket_option(name: &str) -> (r: Option<(&'static str, Lowering)>)
    ensures
        match socket_option_spec(name@) {
            Some((d, how)) => r matches Some((x, h)) && x@ == d && h == how,
            None => r is None,
        },
{
    if str_eq(name, "Accept") {
        Some(("Accept", Lowering::Bool))
    } else if str_eq(name, "Backlog") {
        Some(("Backlog", Lowering::U32))
    } else if str_eq(name, "BindIPv6Only") {
        Some(("BindIPv6Only", Lowering::Str))
    } else if str_eq(name, "BindToDevice") {
        Some(("BindToDevice", Lowering::Str))
    } else if str_eq(name, "Broadcast") {
        Some(("Broadcast", Lowering::Bool))
    } else if str_eq(name, "DeferAcceptSec") {
        Some(("DeferAcceptUSec", Lowering::Duration))
    } else if str_eq(name, "DirectoryMode") {
        Some(("DirectoryMode", Lowering::Mode))
    } else if str_eq(name, "FileDescriptorName") {
        Some(("FileDescriptorName", Lowering::Str))
    } else if str_eq(name, "FlushPending") {
        Some(("FlushPending", Lowering::Bool))
    } else if str_eq(name, "FreeBind") {
        Some(("FreeBind", Lowering::Bool))
    } else if str_eq(name, "IPTOS") {
        Some(("IPTOS", Lowering::I32))
    } else if str_eq(name, "IPTTL") {
        Some(("IPTTL", Lowering::I32))
    } else if str_eq(name, "KeepAlive") {
        Some(("KeepAlive", Lowering::Bool))
    } else if str_eq(name, "KeepAliveIntervalSec") {
        Some(("KeepAliveIntervalUSec", Lowering::Duration))
    } else if str_eq(name, "KeepAliveProbes") {
        Some(("KeepAliveProbes", Lowering::U32))
    } else if str_eq(name, "KeepAliveTimeSec") {
        Some(("KeepAliveTimeUSec", Lowering::Duration))
    } else if str_eq(name, "Mark") {
        Some(("Mark", Lowering::I32))
    } else if str_eq(name, "MaxConnections") {
        Some(("MaxConnections", Lowering::U32))
    } else if str_eq(name, "MaxConnectionsPerSource") {
        Some(("MaxConnectionsPerSource", Lowering::U32))
    } else if str_eq(name, "NoDelay") {
        Some(("NoDelay", Lowering::Bool))
    } else if str_eq(name, "PassCredentials") {
        Some(("PassCredentials", Lowering::Bool))
    } else if str_eq(name, "PassEnvironment") {
        Some(("PassEnvironment", Lowering::List))
    } else if str_eq(name, "PassPacketInfo") {
        Some(("PassPacketInfo", Lowering::Bool))
    } else if str_eq(name, "PassSecurity") {
        Some(("PassSecurity", Lowering::Bool))
    } else if str_eq(name, "PipeSize") {
        Some(("PipeSize", Lowering::U64))
    } else if str_eq(name, "Priority") {
        Some(("Priority", Lowering::I32))
    } else if str_eq(name, "ReceiveBuffer") {
        Some(("ReceiveBuffer", Lowering::U64))
    } else if str_eq(name, "RemoveOnStop") {
        Some(("RemoveOnStop", Lowering::Bool))
    } else if str_eq(name, "SendBuffer") {
        Some(("SendBuffer", Lowering::U64))
    } else if str_eq(name, "SocketGroup") {
        Some(("SocketGroup", Lowering::Str))
    } else if str_eq(name, "SocketMode") {
        Some(("SocketMode", Lowering::Mode))
    } else if str_eq(name, "SocketProtocol") {
        Some(("SocketProtocol", Lowering::I32))
    } else if str_eq(name, "SocketUser") {
        Some(("SocketUser", Lowering::Str))
    } else if str_eq(name, "Symlinks") {
        Some(("Symlinks", Lowering::List))
    } else if str_eq(name, "TCPCongestion") {
        Some(("TCPCongestion", Lowering::Str))
    } else if str_eq(name, "TimeoutSec") {
        Some(("TimeoutUSec", Lowering::Duration))
    } else if str_eq(name, "Timestamping") {
        Some(("Timestamping", Lowering::Str))
    } else if str_eq(name, "Transparent") {
        Some(("Transparent", Lowering::Bool))
    } else if str_eq(name, "TriggerLimitBurst") {
        Some(("TriggerLimitBurst", Lowering::U32))
    } else if str_eq(name, "TriggerLimitIntervalSec") {
        Some(("TriggerLimitIntervalUSec", Lowering::Duration))
    } else if str_eq(name, "Writable") {
        Some(("Writable", Lowering::Bool))
    } else {
        None
    }
}

/// The path options that become one property each.
pub open spec fn path_option_spec(name: Seq<char>) -> Option<(Seq<char>, Lowering)> {
    if name == "MakeDirectory"@ {
        Some(("MakeDirectory"@, Lowering::Bool))
    } else if name == "DirectoryMode"@ {
        Some(("DirectoryMode"@, Lowering::Mode))
    } else if name == "TriggerLimitBurst"@ {
        Some(("TriggerLimitBurst"@, Lowering::U32))
    } else if name == "TriggerLimitIntervalSec"@ {
        Some(("TriggerLimitIntervalUSec"@, Lowering::Duration))
    } else {
        None
    }
}

/// The property and lowering of a path option.
pub fn path_option(name: &str) -> (r: Option<(&'static str, Lowering)>)
    ensures
        match path_option_spec(name@) {
            Some((d, how)) => r matches Some((x, h)) && x@ == d && h == how,
            None => r is None,
        },
{
    if str_eq(name, "MakeDirectory") {
        Some(("MakeDirectory", Lowering::Bool))
    } else if str_eq(name, "DirectoryMode") {
        Some(("DirectoryMode", Lowering::Mode))
    } else if str_eq(name, "TriggerLimitBurst") {
        Some(("TriggerLimitBurst", Lowering::U32))
    } else if str_eq(name, "TriggerLimitIntervalSec") {
        Some(("TriggerLimitIntervalUSec", Lowering::Duration))
    } else {
        None
    }
}

/// The timer options that become one property each.
pub open spec fn timer_option_spec(name: Seq<char>) -> Option<(Seq<char>, Lowering)> {
    if name == "AccuracySec"@ {
        Some(("AccuracyUSec"@, Lowering::Duration))
    } else if name == "OnClockChange"@ {
        Some(("OnClockChange"@, Lowering::Bool))
    } else if name == "OnTimezoneChange"@ {
        Some(("OnTimezoneChange"@, Lowering::Bool))
    } else if name == "Persistent"@ {
        Some(("Persistent"@, Lowering::Bool))
    } else if name == "RandomizedDelaySec"@ {
        Some(("RandomizedDelayUSec"@, Lowering::Duration))
    } else if name == "RemainAfterElapse"@ {
        Some(("RemainAfterElapse"@, Lowering::Bool))
    } else if name == "WakeSystem"@ {
        Some(("WakeSystem"@, Lowering::Bool))
    } else {
        None
    }
}

/// The property and lowering of a timer option.
pub fn timer_option(name: &str) -> (r: Option<(&'static str, Lowering)>)
    ensures
        match timer_option_spec(name@) {
            Some((d, how)) => r matches Some((x, h)) && x@ == d && h == how,
            None => r is None,
        },
{
    if str_eq(name, "AccuracySec") {
        Some(("AccuracyUSec", Lowering::Duration))
    } else if str_eq(name, "OnClockChange") {
        Some(("OnClockChange", Lowering::Bool))
    } else if str_eq(name, "OnTimezoneChange") {
        Some(("OnTimezoneChange", Lowering::Bool))
    } else if str_eq(name, "Persistent") {
        Some(("Persistent", Lowering::Bool))
    } else if str_eq(name, "RandomizedDelaySec") {
        Some(("RandomizedDelayUSec", Lowering::Duration))
    } else if str_eq(name, "RemainAfterElapse") {
        Some(("RemainAfterElapse", Lowering::Bool))
    } else if str_eq(name, "WakeSystem") {
        Some(("WakeSystem", Lowering::Bool))
    } else {
        None
    }
}

} // verus!

verus! {

/// The lowered options of an activation unit so far: the properties, the
/// collected (type, value) pairs (listen addresses, watched paths or
/// calendar events), and the monotonic timers.
pub type LoweringState = (Seq<(Seq<char>, PropView)>, Seq<(Seq<char>, Seq<char>)>, Seq<(Seq<char>, u64)>);

/// The property and lowering of an option of an activation kind.
pub open spec fn option_spec(kind: ActivationKind, name: Seq<char>) -> Option<(Seq<char>, Lowering)> {
    match kind {
        ActivationKind::Socket => socket_option_spec(name),
        ActivationKind::Path => path_option_spec(name),
        ActivationKind::Timer => timer_option_spec(name),
    }
}

/// The type under which an option's values are collected as pairs: the
/// listen type of a socket address, the condition of a watched path, or
/// `OnCalendar` for a calendar event.
pub open spec fn collected_spec(kind: ActivationKind, name: Seq<char>) -> Option<Seq<char>> {
    match kind {
        ActivationKind::Socket => listen_type_spec(name),
        ActivationKind::Path => if is_path_condition(name) {
            Some(name)
        } else {
            None
        },
        ActivationKind::Timer => if name == "OnCalendar"@ {
            Some(name)
        } else {
            None
        },
    }
}

/// Each value of a monotonic timer option as (base, microseconds), or the
/// first that is not a duration.
pub open spec fn monotonic_values(name: Seq<char>, base: Seq<char>, values: Seq<Seq<char>>) -> Result<
    Seq<(Seq<char>, u64)>,
    Seq<char>,
>
    decreases values.len(),
{
    if values.len() == 0 {
        Ok(seq![])
    } else {
        match monotonic_values(name, base, values.drop_last()) {
            Err(e) => Err(e),
            Ok(ts) => match parse_duration_spec(name, values.last()) {
                Ok(d) => Ok(ts.push((base, d))),
                Err(e) => Err(e),
            },
        }
    }
}

/// Every value of an option paired with `t`.
pub open spec fn tag_values(t: Seq<char>, values: Seq<Seq<char>>) -> Seq<(Seq<char>, Seq<char>)> {
    values.map_values(|v: Seq<char>| (t, v))
}

/// One option of an activation unit, lowered onto the state.
pub open spec fn lower_step(kind: ActivationKind, st: LoweringState, name: Seq<char>, values: Seq<Seq<char>>) -> Result<
    LoweringState,
    Seq<char>,
> {
    let timer_base = if kind == ActivationKind::Timer {
        monotonic_base_spec(name)
    } else {
        None
    };
    match timer_base {
        Some(b) => match monotonic_values(name, b, values) {
            Err(e) => Err(e),
            Ok(ts) => Ok((st.0, st.1, st.2 + ts)),
        },
        None => match collected_spec(kind, name) {
            Some(t) => Ok((st.0, st.1 + tag_values(t, values), st.2)),
            None => match option_spec(kind, name) {
                None => Err(unsupported_msg(suffix_spec(kind), name)),
                Some((d, how)) => match lower_spec(name, how, values) {
                    Err(e) => Err(e),
                    Ok(pv) => Ok((st.0.push((d, pv)), st.1, st.2)),
                },
            },
        },
    }
}

/// The options of an activation unit, in name order, lowered.
pub open spec fn lower_fold(kind: ActivationKind, entries: Seq<(String, Vec<String>)>) -> Result<LoweringState, Seq<char>>
    decreases entries.len(),
{
    if entries.len() == 0 {
        Ok((seq![], seq![], seq![]))
    } else {
        match lower_fold(kind, entries.drop_last()) {
            Err(e) => Err(e),
            Ok(st) => lower_step(kind, st, entries.last().0@, views(entries.last().1@)),
        }
    }
}

/// The properties of the lowered state: the options' own, then the
/// collected lists, each when not empty.
pub open spec fn finish_spec(kind: ActivationKind, st: LoweringState) -> Seq<(Seq<char>, PropView)> {
    match kind {
        ActivationKind::Socket => if st.1.len() > 0 {
            st.0.push(("Listen"@, PropView::Pairs(st.1)))
        } else {
            st.0
        },
        ActivationKind::Path => if st.1.len() > 0 {
            st.0.push(("Paths"@, PropView::Paths(st.1)))
        } else {
            st.0
        },
        ActivationKind::Timer => {
            let p = if st.2.len() > 0 {
                st.0.push(("TimersMonotonic"@, PropView::Timers(st.2)))
            } else {
                st.0
            };
            if st.1.len() > 0 {
                p.push(("TimersCalendar"@, PropView::Pairs(st.1)))
            } else {
                p
            }
        },
    }
}

/// The properties an activation unit's options become, or the first
/// option that cannot be lowered.
pub open spec fn kind_props_spec(kind: ActivationKind, entries: Seq<(String, Vec<String>)>) -> Result<
    Seq<(Seq<char>, PropView)>,
    Seq<char>,
> {
    match lower_fold(kind, entries) {
        Err(e) => Err(e),
        Ok(st) => Ok(finish_spec(kind, st)),
    }
}

/// An error on a prefix of the options is the error of all of them.
proof fn lemma_fold_error_persists(kind: ActivationKind, entries: Seq<(String, Vec<String>)>, k: int)
    requires
        0 <= k <= entries.len(),
        lower_fold(kind, entries.take(k)) is Err,
    ensures
        lower_fold(kind, entries) == lower_fold(kind, entries.take(k)),
    decreases entries.len(),
{
    if k == entries.len() {
        assert(entries.take(k) =~= entries);
    } else {
        assert(entries.drop_last().take(k) =~= entries.take(k));
        lemma_fold_error_persists(kind, entries.drop_last(), k);
    }
}

/// The prefix of `i + 1` options is the prefix of `i` and option `i`.
proof fn lemma_fold_next(kind: ActivationKind, entries: Seq<(String, Vec<String>)>, i: int)
    requires
        0 <= i < entries.len(),
    ensures
        lower_fold(kind, entries.take(i + 1)) == match lower_fold(kind, entries.take(i)) {
            Err(e) => Err(e),
            Ok(st) => lower_step(kind, st, entries[i].0@, views(entries[i].1@)),
        },
{
    assert(entries.take(i + 1).drop_last() =~= entries.take(i));
    assert(entries.take(i + 1).last() == entries[i]);
}

/// Appends `(t, v)` for each value `v`.
fn push_tagged(out: &mut Vec<(String, String)>, t: &str, values: &Vec<String>)
    ensures
        pairs_view(final(out)@) == pairs_view(old(out)@) + tag_values(t@, views(values@)),
{
    let ghost start = pairs_view(out@);
    let mut j: usize = 0;
    while j < values.len()
        invariant
            j <= values@.len(),
            pairs_view(out@) == start + tag_values(t@, views(values@).take(j as int)),
        decreases values.len() - j,
    {
        let ghost prev = out@;
        out.push((own(t), own(values[j].as_str())));
        assert(pairs_view(out@) =~= pairs_view(prev).push((t@, values@[j as int]@)));
        assert(tag_values(t@, views(values@).take(j + 1)) =~= tag_values(t@, views(values@).take(j as int)).push(
            (t@, values@[j as int]@),
        ));
        j = j + 1;
    }
    assert(views(values@).take(values@.len() as int) =~= views(values@));
}

/// A copy of a list of string pairs.
fn clone_pairs(v: &Vec<(String, String)>) -> (r: Vec<(String, String)>)
    ensures
        pairs_view(r@) == pairs_view(v@),
{
    let mut out: Vec<(String, String)> = Vec::new();
    let mut i: usize = 0;
    while i < v.len()
        invariant
            i <= v@.len(),
            pairs_view(out@) == pairs_view(v@).take(i as int),
        decreases v.len() - i,
    {
        let ghost prev = out@;
        out.push((own(v[i].0.as_str()), own(v[i].1.as_str())));
        assert(pairs_view(out@) =~= pairs_view(prev).push((v@[i as int].0@, v@[i as int].1@)));
        assert(pairs_view(v@).take(i + 1) =~= pairs_view(v@).take(i as int).push(pairs_view(v@)[i as int]));
        i = i + 1;
    }
    assert(pairs_view(v@).take(v@.len() as int) =~= pairs_view(v@));
    out
}

/// Adds the properties of a socket unit's options: each option's own, then
/// the listen addresses as `Listen`.
pub fn socket_properties(
    socket: &StrMap<Vec<String>>,
    properties: &mut Vec<(String, PropertyValue)>,
) -> (r: Result<(), String>)
    ensures
        r is Ok ==> (kind_props_spec(ActivationKind::Socket, socket@) matches Ok(p) && props_view(final(properties)@)
            == props_view(old(properties)@) + p),
        r matches Err(e) ==> kind_props_spec(ActivationKind::Socket, socket@) == Err::<Seq<(Seq<char>, PropView)>, Seq<char>>(e@),
{
    let ghost kind = ActivationKind::Socket;
    let ghost start = props_view(properties@);
    let entries = socket.entries();
    let mut listen: Vec<(String, String)> = Vec::new();
    let mut i: usize = 0;
    proof {
        assert(entries@.take(0) =~= Seq::<(String, Vec<String>)>::empty());
        assert(props_view(properties@) =~= start + seq![]);
    }
    while i < entries.len()
        invariant
            entries@ == socket@,
            kind == ActivationKind::Socket,
            i <= entries@.len(),
            lower_fold(kind, entries@.take(i as int)) matches Ok(st) && props_view(properties@) == start + st.0
                && pairs_view(listen@) == st.1 && st.2 == Seq::<(Seq<char>, u64)>::empty(),
        decreases entries.len() - i,
    {
        let name = entries[i].0.as_str();
        let values = &entries[i].1;
        proof {
            lemma_fold_next(kind, entries@, i as int);
        }
        match socket_listen_type(name) {
            Some(t) => {
                push_tagged(&mut listen, t, values);
            },
            None => match socket_option(name) {
                Some((d, how)) => {
                    let pushed_r = push_lowered(properties, d, name, how, values.as_slice());
                    if let Err(e) = pushed_r {
                        proof {
                            lemma_fold_error_persists(kind, entries@, i + 1);
                        }
                        return Err(e);
                    }
                },
                None => {
                    proof {
                        lemma_fold_error_persists(kind, entries@, i + 1);
                    }
                    return Err(unsupported_activation("socket", name));
                },
            },
        }
        i = i + 1;
    }
    proof {
        assert(entries@.take(entries@.len() as int) =~= entries@);
    }
    if listen.len() > 0 {
        let ghost before = props_view(properties@);
        let l = clone_pairs(&listen);
        properties.push((own("Listen"), PropertyValue::Pairs(l)));
        assert(props_view(properties@) =~= before.push(("Listen"@, PropView::Pairs(pairs_view(listen@)))));
    }
    Ok(())
}

} // verus!

verus! {

/// Adds the properties of a path unit's options: each option's own, then
/// the watched paths as `Paths`.
pub fn path_properties(
    path: &StrMap<Vec<String>>,
    properties: &mut Vec<(String, PropertyValue)>,
) -> (r: Result<(), String>)
    ensures
        r is Ok ==> (kind_props_spec(ActivationKind::Path, path@) matches Ok(p) && props_view(final(properties)@)
            == props_view(old(properties)@) + p),
        r matches Err(e) ==> kind_props_spec(ActivationKind::Path, path@) == Err::<Seq<(Seq<char>, PropView)>, Seq<char>>(e@),
{
    let ghost kind = ActivationKind::Path;
    let ghost start = props_view(properties@);
    let entries = path.entries();
    let mut paths: Vec<(String, String)> = Vec::new();
    let mut i: usize = 0;
    proof {
        assert(entries@.take(0) =~= Seq::<(String, Vec<String>)>::empty());
        assert(props_view(properties@) =~= start + seq![]);
    }
    while i < entries.len()
        invariant
            entries@ == path@,
            kind == ActivationKind::Path,
            i <= entries@.len(),
            lower_fold(kind, entries@.take(i as int)) matches Ok(st) && props_view(properties@) == start + st.0
                && pairs_view(paths@) == st.1 && st.2 == Seq::<(Seq<char>, u64)>::empty(),
        decreases entries.len() - i,
    {
        let name = entries[i].0.as_str();
        let values = &entries[i].1;
        proof {
            lemma_fold_next(kind, entries@, i as int);
        }
        if is_path_condition_name(name) {
            let condition = match path_condition(name) {
                Ok(c) => c,
                Err(e) => {
                    return Err(e);
                },
            };
            push_tagged(&mut paths, condition.as_str(), values);
        } else {
            match path_option(name) {
                Some((d, how)) => {
                    let pushed_r = push_lowered(properties, d, name, how, values.as_slice());
                    if let Err(e) = pushed_r {
                        proof {
                            lemma_fold_error_persists(kind, entries@, i + 1);
                        }
                        return Err(e);
                    }
                },
                None => {
                    proof {
                        lemma_fold_error_persists(kind, entries@, i + 1);
                    }
                    return Err(unsupported_activation("path", name));
                },
            }
        }
        i = i + 1;
    }
    proof {
        assert(entries@.take(entries@.len() as int) =~= entries@);
    }
    if paths.len() > 0 {
        let ghost before = props_view(properties@);
        let l = clone_pairs(&paths);
        properties.push((own("Paths"), PropertyValue::Paths(l)));
        assert(props_view(properties@) =~= before.push(("Paths"@, PropView::Paths(pairs_view(paths@)))));
    }
    Ok(())
}

/// An error on a prefix of the values is the error of all of them.
proof fn lemma_monotonic_error_persists(name: Seq<char>, base: Seq<char>, values: Seq<Seq<char>>, k: int)
    requires
        0 <= k <= values.len(),
        monotonic_values(name, base, values.take(k)) is Err,
    ensures
        monotonic_values(name, base, values) == monotonic_values(name, base, values.take(k)),
    decreases values.len(),
{
    if k == values.len() {
        assert(values.take(k) =~= values);
    } else {
        assert(values.drop_last().take(k) =~= values.take(k));
        lemma_monotonic_error_persists(name, base, values.drop_last(), k);
    }
}

/// Appends `(base, microseconds)` for each value of a monotonic timer
/// option, or gives the first value that is not a duration.
fn push_monotonic(out: &mut Vec<(String, u64)>, name: &str, base: &str, values: &Vec<String>) -> (r: Result<(), String>)
    ensures
        match monotonic_values(name@, base@, views(values@)) {
            Ok(ts) => r is Ok && timers_view(final(out)@) == timers_view(old(out)@) + ts,
            Err(e) => r matches Err(x) && x@ == e,
        },
{
    let ghost start = timers_view(out@);
    let ghost vs = views(values@);
    let mut j: usize = 0;
    proof {
        assert(vs.take(0) =~= Seq::<Seq<char>>::empty());
        assert(timers_view(out@) =~= start + seq![]);
    }
    while j < values.len()
        invariant
            vs == views(values@),
            j <= values@.len(),
            monotonic_values(name@, base@, vs.take(j as int)) matches Ok(ts) && timers_view(out@) == start + ts,
        decreases values.len() - j,
    {
        assert(vs.take(j + 1).drop_last() =~= vs.take(j as int));
        assert(vs.take(j + 1).last() == values@[j as int]@);
        match parse_duration_usec(name, values[j].as_str()) {
            Ok(d) => {
                let ghost prev = out@;
                out.push((own(base), d));
                assert(timers_view(out@) =~= timers_view(prev).push((base@, d)));
            },
            Err(e) => {
                proof {
                    lemma_monotonic_error_persists(name@, base@, vs, j + 1);
                }
                return Err(e);
            },
        }
        j = j + 1;
    }
    assert(vs.take(values@.len() as int) =~= vs);
    Ok(())
}

/// A copy of a list of timers.
fn clone_timers(v: &Vec<(String, u64)>) -> (r: Vec<(String, u64)>)
    ensures
        timers_view(r@) == timers_view(v@),
{
    let mut out: Vec<(String, u64)> = Vec::new();
    let mut i: usize = 0;
    while i < v.len()
        invariant
            i <= v@.len(),
            timers_view(out@) == timers_view(v@).take(i as int),
        decreases v.len() - i,
    {
        let ghost prev = out@;
        out.push((own(v[i].0.as_str()), v[i].1));
        assert(timers_view(out@) =~= timers_view(prev).push((v@[i as int].0@, v@[i as int].1)));
        assert(timers_view(v@).take(i + 1) =~= timers_view(v@).take(i as int).push(timers_view(v@)[i as int]));
        i = i + 1;
    }
    assert(timers_view(v@).take(v@.len() as int) =~= timers_view(v@));
    out
}

/// Adds the properties of a timer unit's options: each option's own, then
/// the monotonic timers as `TimersMonotonic` and the calendar events as
/// `TimersCalendar`.
pub fn timer_properties(
    timer: &StrMap<Vec<String>>,
    properties: &mut Vec<(String, PropertyValue)>,
) -> (r: Result<(), String>)
    ensures
        r is Ok ==> (kind_props_spec(ActivationKind::Timer, timer@) matches Ok(p) && props_view(final(properties)@)
            == props_view(old(properties)@) + p),
        r matches Err(e) ==> kind_props_spec(ActivationKind::Timer, timer@) == Err::<Seq<(Seq<char>, PropView)>, Seq<char>>(e@),
{
    let ghost kind = ActivationKind::Timer;
    let ghost start = props_view(properties@);
    let entries = timer.entries();
    let mut monotonic: Vec<(String, u64)> = Vec::new();
    let mut calendar: Vec<(String, String)> = Vec::new();
    let mut i: usize = 0;
    proof {
        assert(entries@.take(0) =~= Seq::<(String, Vec<String>)>::empty());
        assert(props_view(properties@) =~= start + seq![]);
    }
    while i < entries.len()
        invariant
            entries@ == timer@,
            kind == ActivationKind::Timer,
            i <= entries@.len(),
            lower_fold(kind, entries@.take(i as int)) matches Ok(st) && props_view(properties@) == start + st.0
                && pairs_view(calendar@) == st.1 && timers_view(monotonic@) == st.2,
        decreases entries.len() - i,
    {
        let name = entries[i].0.as_str();
        let values = &entries[i].1;
        proof {
            lemma_fold_next(kind, entries@, i as int);
        }
        match timer_monotonic_base(name) {
            Some(base) => {
                let pushed_r = push_monotonic(&mut monotonic, name, base, values);
                if let Err(e) = pushed_r {
                    proof {
                        lemma_fold_error_persists(kind, entries@, i + 1);
                    }
                    return Err(e);
                }
            },
            None => {
                if str_eq(name, "OnCalendar") {
                    push_tagged(&mut calendar, "OnCalendar", values);
                } else {
                    match timer_option(name) {
                        Some((d, how)) => {
                            let pushed_r = push_lowered(properties, d, name, how, values.as_slice());
                            if let Err(e) = pushed_r {
                                proof {
                                    lemma_fold_error_persists(kind, entries@, i + 1);
                                }
                                return Err(e);
                            }
                        },
                        None => {
                            proof {
                                lemma_fold_error_persists(kind, entries@, i + 1);
                            }
                            return Err(unsupported_activation("timer", name));
                        },
                    }
                }
            },
        }
        i = i + 1;
    }
    proof {
        assert(entries@.take(entries@.len() as int) =~= entries@);
    }
    if monotonic.len() > 0 {
        let ghost before = props_view(properties@);
        let l = clone_timers(&monotonic);
        properties.push((own("TimersMonotonic"), PropertyValue::Timers(l)));
        assert(props_view(properties@) =~= before.push(("TimersMonotonic"@, PropView::Timers(timers_view(monotonic@)))));
    }
    if calendar.len() > 0 {
        let ghost before = props_view(properties@);
        let l = clone_pairs(&calendar);
        properties.push((own("TimersCalendar"), PropertyValue::Pairs(l)));
        assert(props_view(properties@) =~= before.push(("TimersCalendar"@, PropView::Pairs(pairs_view(calendar@)))));
    }
    Ok(())
}

} // verus!

verus! {

/// The options of an activation kind, by name.
pub open spec fn kind_entries(service: Service, kind: ActivationKind) -> Seq<(String, Vec<String>)> {
    match kind {
        ActivationKind::Socket => service.activation.socket@,
        ActivationKind::Path => service.activation.path@,
        ActivationKind::Timer => service.activation.timer@,
    }
}

/// The description and collection mode every transient unit is started
/// with.
pub open spec fn unit_header(description: Seq<char>) -> Seq<(Seq<char>, PropView)> {
    seq![
        ("Description"@, PropView::Str(description)),
        ("CollectMode"@, PropView::Str("inactive-or-failed"@)),
    ]
}

/// The properties of the activation unit of kind `kind` of a service.
pub open spec fn activation_props_spec(service: Service, kind: ActivationKind, description: Seq<char>) -> Result<
    Seq<(Seq<char>, PropView)>,
    Seq<char>,
> {
    match kind_props_spec(kind, kind_entries(service, kind)) {
        Err(e) => Err(e),
        Ok(p) => Ok(unit_header(description) + p),
    }
}

/// Starts a property list with the description and collection mode.
fn header_properties(description: String) -> (r: Vec<(String, PropertyValue)>)
    ensures
        props_view(r@) == unit_header(description@),
{
    let mut props: Vec<(String, PropertyValue)> = Vec::new();
    props.push((own("Description"), PropertyValue::Str(description)));
    props.push((own("CollectMode"), PropertyValue::Str(own("inactive-or-failed"))));
    assert(props_view(props@) =~= unit_header(description@));
    props
}

/// The properties of the activation unit of kind `kind` of a service.
pub fn activation_properties(service: &Service, kind: ActivationKind, description: String) -> (r: Result<
    Vec<(String, PropertyValue)>,
    String,
>)
    ensures
        r matches Ok(v) ==> activation_props_spec(*service, kind, description@) == Ok::<
            Seq<(Seq<char>, PropView)>,
            Seq<char>,
        >(props_view(v@)),
        r matches Err(e) ==> activation_props_spec(*service, kind, description@) == Err::<
            Seq<(Seq<char>, PropView)>,
            Seq<char>,
        >(e@),
{
    let mut properties = header_properties(description);
    match kind {
        ActivationKind::Socket => {
            socket_properties(&service.activation.socket, &mut properties)?;
        },
        ActivationKind::Path => {
            path_properties(&service.activation.path, &mut properties)?;
        },
        ActivationKind::Timer => {
            timer_properties(&service.activation.timer, &mut properties)?;
        },
    }
    Ok(properties)
}

/// Commands run through the set's shell.
pub open spec fn shell_commands_spec(shell: Seq<char>, cmds: Seq<SystemdExecCommand>) -> Seq<(Seq<char>, Seq<Seq<char>>, bool)> {
    cmds.map_values(
        |c: SystemdExecCommand| (shell, seq![shell, "-lc"@, command_spec(c)], ignore_failure_spec(c)),
    )
}

/// `props` with commands `cmds` as property `name`, when there are any.
pub open spec fn with_commands(
    props: Seq<(Seq<char>, PropView)>,
    name: Seq<char>,
    shell: Seq<char>,
    cmds: Seq<SystemdExecCommand>,
) -> Seq<(Seq<char>, PropView)> {
    if cmds.len() == 0 {
        props
    } else {
        props.push((name, PropView::Commands(shell_commands_spec(shell, cmds))))
    }
}

/// `props` with the string setting `o` as property `name`, when set.
pub open spec fn with_str(props: Seq<(Seq<char>, PropView)>, name: Seq<char>, o: Option<String>) -> Seq<(Seq<char>, PropView)> {
    match o {
        Some(s) => props.push((name, PropView::Str(s@))),
        None => props,
    }
}

/// `props` with the microseconds `o` as property `name`, when set.
pub open spec fn with_u64(props: Seq<(Seq<char>, PropView)>, name: Seq<char>, o: Option<u64>) -> Seq<(Seq<char>, PropView)> {
    match o {
        Some(u) => props.push((name, PropView::U64(u))),
        None => props,
    }
}

/// A duration setting in microseconds, when set.
pub open spec fn opt_duration_spec(option: Seq<char>, o: Option<String>) -> Result<Option<u64>, Seq<char>> {
    match o {
        None => Ok(None),
        Some(v) => match parse_duration_spec(option, v@) {
            Ok(d) => Ok(Some(d)),
            Err(e) => Err(e),
        },
    }
}

/// The notify access of a service: its own setting, else `all` for a
/// service whose type starts with `notify`.
pub open spec fn notify_access_spec(sd: ServiceSystemd) -> Option<Seq<char>> {
    match sd.notify_access {
        Some(n) => Some(n@),
        None => match sd.service_type {
            Some(t) => if t@.len() >= 6 && t@.take(6) == "notify"@ {
                Some("all"@)
            } else {
                None
            },
            None => None,
        },
    }
}

/// The properties of a service unit, or the first setting that cannot be
/// lowered.
pub open spec fn service_props_spec(
    shell: Seq<char>,
    exec: Exec,
    sd: ServiceSystemd,
    description: Seq<char>,
    environment: Seq<Seq<char>>,
    data: Seq<char>,
    configs: Seq<(String, String)>,
) -> Result<Seq<(Seq<char>, PropView)>, Seq<char>> {
    match systemd_argv_spec(exec, shell, configs) {
        Err(e) => Err(e),
        Ok((program, argv)) => {
            let wd = match sd.working_directory {
                Some(w) => w@,
                None => data,
            };
            let p1 = unit_header(description) + seq![
                ("ExecStart"@, PropView::Commands(seq![(program, argv, sd.ignore_start_failure)])),
                ("Environment"@, PropView::Strings(environment)),
                ("WorkingDirectory"@, PropView::Str(wd)),
            ];
            let p2 = with_commands(
                with_commands(
                    with_commands(
                        with_commands(p1, "ExecStartPre"@, shell, sd.exec_start_pre@),
                        "ExecStartPost"@,
                        shell,
                        sd.exec_start_post@,
                    ),
                    "ExecReload"@,
                    shell,
                    sd.exec_reload@,
                ),
                "ExecStop"@,
                shell,
                sd.exec_stop@,
            );
            let p3 = with_str(p2, "Type"@, sd.service_type);
            let p4 = match notify_access_spec(sd) {
                Some(n) => p3.push(("NotifyAccess"@, PropView::Str(n))),
                None => p3,
            };
            let p5 = with_str(p4, "Restart"@, sd.restart);
            match opt_duration_spec("RestartSec"@, sd.restart_sec) {
                Err(e) => Err(e),
                Ok(rs) => {
                    let p6 = with_u64(p5, "RestartUSec"@, rs);
                    match opt_duration_spec("TimeoutSec"@, sd.timeout_sec) {
                        Err(e) => Err(e),
                        Ok(ts) => {
                            let p7 = with_u64(
                                with_u64(
                                    p6,
                                    "TimeoutStartUSec"@,
                                    if sd.timeout_start_sec is None {
                                        ts
                                    } else {
                                        None
                                    },
                                ),
                                "TimeoutStopUSec"@,
                                if sd.timeout_stop_sec is None {
                                    ts
                                } else {
                                    None
                                },
                            );
                            match opt_duration_spec("TimeoutStartSec"@, sd.timeout_start_sec) {
                                Err(e) => Err(e),
                                Ok(a) => match opt_duration_spec("TimeoutStopSec"@, sd.timeout_stop_sec) {
                                    Err(e) => Err(e),
                                    Ok(b) => match opt_duration_spec("WatchdogSec"@, sd.watchdog_sec) {
                                        Err(e) => Err(e),
                                        Ok(w) => {
                                            let p8 = with_u64(
                                                with_u64(with_u64(p7, "TimeoutStartUSec"@, a), "TimeoutStopUSec"@, b),
                                                "WatchdogUSec"@,
                                                w,
                                            );
                                            let p9 = with_str(p8, "KillMode"@, sd.kill_mode);
                                            Ok(
                                                match sd.remain_after_exit {
                                                    Some(x) => p9.push(("RemainAfterExit"@, PropView::Bool(x))),
                                                    None => p9,
                                                },
                                            )
                                        },
                                    },
                                },
                            }
                        },
                    }
                },
            }
        },
    }
}

/// Adds commands `cmds`, run through the shell, as property `name` when
/// there are any.
fn push_commands(
    properties: &mut Vec<(String, PropertyValue)>,
    name: &str,
    shell: &str,
    cmds: &Vec<SystemdExecCommand>,
)
    ensures
        props_view(final(properties)@) == with_commands(props_view(old(properties)@), name@, shell@, cmds@),
{
    if cmds.len() == 0 {
        return ;
    }
    let mut out: Vec<(String, Vec<String>, bool)> = Vec::new();
    let mut i: usize = 0;
    while i < cmds.len()
        invariant
            i <= cmds@.len(),
            commands_view(out@) == shell_commands_spec(shell@, cmds@).take(i as int),
        decreases cmds.len() - i,
    {
        let c = shell_exec_command(shell, cmds[i].command(), cmds[i].ignore_failure());
        let ghost prev = out@;
        let ghost cv = (c.0@, views(c.1@), c.2);
        out.push(c);
        assert(commands_view(out@) =~= commands_view(prev).push(cv));
        assert(shell_commands_spec(shell@, cmds@).take(i + 1) =~= shell_commands_spec(shell@, cmds@).take(
            i as int,
        ).push(cv));
        i = i + 1;
    }
    assert(shell_commands_spec(shell@, cmds@).take(cmds@.len() as int) =~= shell_commands_spec(shell@, cmds@));
    let ghost before = props_view(properties@);
    properties.push((own(name), PropertyValue::Commands(out)));
    assert(props_view(properties@) =~= before.push((name@, PropView::Commands(shell_commands_spec(shell@, cmds@)))));
}

/// Adds the string setting `o` as property `name` when set.
fn push_opt_str(properties: &mut Vec<(String, PropertyValue)>, name: &str, o: &Option<String>)
    ensures
        props_view(final(properties)@) == with_str(props_view(old(properties)@), name@, *o),
{
    if let Some(s) = o {
        let ghost before = props_view(properties@);
        properties.push((own(name), PropertyValue::Str(own(s.as_str()))));
        assert(props_view(properties@) =~= before.push((name@, PropView::Str(s@))));
    }
}

/// Adds the microseconds `o` as property `name` when set.
fn push_opt_u64(properties: &mut Vec<(String, PropertyValue)>, name: &str, o: Option<u64>)
    ensures
        props_view(final(properties)@) == with_u64(props_view(old(properties)@), name@, o),
{
    if let Some(u) = o {
        let ghost before = props_view(properties@);
        properties.push((own(name), PropertyValue::U64(u)));
        assert(props_view(properties@) =~= before.push((name@, PropView::U64(u))));
    }
}

/// A duration setting in microseconds, when set.
fn opt_duration(option: &str, o: &Option<String>) -> (r: Result<Option<u64>, String>)
    ensures
        match opt_duration_spec(option@, *o) {
            Ok(x) => r == Ok::<Option<u64>, String>(x),
            Err(e) => r matches Err(x) && x@ == e,
        },
{
    match o {
        None => Ok(None),
        Some(v) => {
            let d = parse_duration_usec(option, v.as_str())?;
            Ok(Some(d))
        },
    }
}

/// The notify access of a service.
fn notify_access(sd: &ServiceSystemd) -> (r: Option<String>)
    ensures
        opt_str(r) == notify_access_spec(*sd),
{
    match &sd.notify_access {
        Some(n) => Some(own(n.as_str())),
        None => match &sd.service_type {
            Some(t) => {
                let cs = chars_of(t.as_str());
                if cs.len() >= 6 && slice_eq_str(&cs, 0, 6, "notify") {
                    assert(cs@.subrange(0, 6) =~= cs@.take(6));
                    Some(own("all"))
                } else {
                    proof {
                        if cs@.len() >= 6 {
                            assert(cs@.subrange(0, 6) =~= cs@.take(6));
                        }
                    }
                    None
                }
            },
            None => None,
        },
    }
}

} // verus!

verus! {

/// The properties of the service unit of service `name`: its description,
/// its command and the commands around it, its environment and working
/// directory, and its systemd settings. `runtime` and `configs` are the
/// service's prepared runtime and the paths of its rendered configs.
pub fn service_properties(
    manifest: &Manifest,
    name: &str,
    service: &Service,
    description: String,
    runtime: &PreparedRuntime,
    configs: &StrMap<String>,
) -> (r: Result<Vec<(String, PropertyValue)>, String>)
    ensures
        r matches Ok(v) ==> service_props_spec(
            manifest.runtime_shell@,
            service.execution,
            service.systemd,
            description@,
            views(runtime.environment@),
            runtime.paths.data@,
            configs@,
        ) == Ok::<Seq<(Seq<char>, PropView)>, Seq<char>>(props_view(v@)),
        r matches Err(e) ==> service_props_spec(
            manifest.runtime_shell@,
            service.execution,
            service.systemd,
            description@,
            views(runtime.environment@),
            runtime.paths.data@,
            configs@,
        ) == Err::<Seq<(Seq<char>, PropView)>, Seq<char>>(e@),
{
    let shell = manifest.runtime_shell.as_str();
    let sd = &service.systemd;
    let (program, argv) = service.execution.systemd_argv(shell, configs)?;
    let ghost argv_view = views(argv@);
    let ghost program_view = program@;
    let mut exec_start: Vec<(String, Vec<String>, bool)> = Vec::new();
    exec_start.push((program, argv, sd.ignore_start_failure));
    assert(commands_view(exec_start@) =~= seq![(program_view, argv_view, sd.ignore_start_failure)]);
    let working_directory = match &sd.working_directory {
        Some(w) => own(w.as_str()),
        None => own(runtime.paths.data.as_str()),
    };
    let mut properties = header_properties(description);
    let ghost h = props_view(properties@);
    properties.push((own("ExecStart"), PropertyValue::Commands(exec_start)));
    properties.push((own("Environment"), PropertyValue::Strings(clone_strings(runtime.environment.as_slice()))));
    properties.push((own("WorkingDirectory"), PropertyValue::Str(working_directory)));
    assert(props_view(properties@) =~= h + seq![
        ("ExecStart"@, PropView::Commands(seq![(program_view, argv_view, sd.ignore_start_failure)])),
        ("Environment"@, PropView::Strings(views(runtime.environment@))),
        ("WorkingDirectory"@, PropView::Str(working_directory@)),
    ]);
    push_commands(&mut properties, "ExecStartPre", shell, &sd.exec_start_pre);
    push_commands(&mut properties, "ExecStartPost", shell, &sd.exec_start_post);
    push_commands(&mut properties, "ExecReload", shell, &sd.exec_reload);
    push_commands(&mut properties, "ExecStop", shell, &sd.exec_stop);
    push_opt_str(&mut properties, "Type", &sd.service_type);
    if let Some(n) = notify_access(sd) {
        let ghost before = props_view(properties@);
        let ghost nv = n@;
        properties.push((own("NotifyAccess"), PropertyValue::Str(n)));
        assert(props_view(properties@) =~= before.push(("NotifyAccess"@, PropView::Str(nv))));
    }
    push_opt_str(&mut properties, "Restart", &sd.restart);
    let restart_usec = opt_duration("RestartSec", &sd.restart_sec)?;
    push_opt_u64(&mut properties, "RestartUSec", restart_usec);
    let timeout_usec = opt_duration("TimeoutSec", &sd.timeout_sec)?;
    if sd.timeout_start_sec.is_none() {
        push_opt_u64(&mut properties, "TimeoutStartUSec", timeout_usec);
    } else {
        push_opt_u64(&mut properties, "TimeoutStartUSec", None);
    }
    if sd.timeout_stop_sec.is_none() {
        push_opt_u64(&mut properties, "TimeoutStopUSec", timeout_usec);
    } else {
        push_opt_u64(&mut properties, "TimeoutStopUSec", None);
    }
    let start_usec = opt_duration("TimeoutStartSec", &sd.timeout_start_sec)?;
    let stop_usec = opt_duration("TimeoutStopSec", &sd.timeout_stop_sec)?;
    let watchdog_usec = opt_duration("WatchdogSec", &sd.watchdog_sec)?;
    push_opt_u64(&mut properties, "TimeoutStartUSec", start_usec);
    push_opt_u64(&mut properties, "TimeoutStopUSec", stop_usec);
    push_opt_u64(&mut properties, "WatchdogUSec", watchdog_usec);
    push_opt_str(&mut properties, "KillMode", &sd.kill_mode);
    if let Some(x) = sd.remain_after_exit {
        let ghost before = props_view(properties@);
        properties.push((own("RemainAfterExit"), PropertyValue::Bool(x)));
        assert(props_view(properties@) =~= before.push(("RemainAfterExit"@, PropView::Bool(x))));
    }
    Ok(properties)
}

/// Whether `props` holds the property `name` with value `value`.
pub open spec fn has_prop(props: Seq<(Seq<char>, PropView)>, name: Seq<char>, value: PropView) -> bool {
    exists|i: int| 0 <= i < props.len() && props[i] == (name, value)
}

/// Whether no property of `props` is named `name`.
pub open spec fn lacks_prop(props: Seq<(Seq<char>, PropView)>, name: Seq<char>) -> bool {
    forall|i: int| 0 <= i < props.len() ==> (#[trigger] props[i]).0 != name
}

/// `q` starts with the properties of `p`.
pub open spec fn grows(p: Seq<(Seq<char>, PropView)>, q: Seq<(Seq<char>, PropView)>) -> bool {
    p.len() <= q.len() && forall|i: int| 0 <= i < p.len() ==> #[trigger] q[i] == p[i]
}

proof fn lemma_grows_trans(a: Seq<(Seq<char>, PropView)>, b: Seq<(Seq<char>, PropView)>, c: Seq<(Seq<char>, PropView)>)
    requires
        grows(a, b),
        grows(b, c),
    ensures
        grows(a, c),
{
    assert forall|i: int| 0 <= i < a.len() implies #[trigger] c[i] == a[i] by {
        assert(c[i] == b[i]);
    }
}

proof fn lemma_grows_has(p: Seq<(Seq<char>, PropView)>, q: Seq<(Seq<char>, PropView)>, name: Seq<char>, value: PropView)
    requires
        grows(p, q),
        has_prop(p, name, value),
    ensures
        has_prop(q, name, value),
{
    let i = choose|i: int| 0 <= i < p.len() && p[i] == (name, value);
    assert(q[i] == p[i]);
}

proof fn lemma_pushed_has(p: Seq<(Seq<char>, PropView)>, name: Seq<char>, value: PropView)
    ensures
        has_prop(p.push((name, value)), name, value),
        grows(p, p.push((name, value))),
{
    assert(p.push((name, value))[p.len() as int] == (name, value));
}

proof fn lemma_push_lacks(p: Seq<(Seq<char>, PropView)>, x: (Seq<char>, PropView), name: Seq<char>)
    requires
        lacks_prop(p, name),
        x.0 != name,
    ensures
        lacks_prop(p.push(x), name),
        grows(p, p.push(x)),
{
    assert forall|i: int| 0 <= i < p.push(x).len() implies (#[trigger] p.push(x)[i]).0 != name by {
        if i < p.len() {
            assert(p.push(x)[i] == p[i]);
        }
    }
}

proof fn lemma_with_grows(p: Seq<(Seq<char>, PropView)>, n: Seq<char>, o: Option<String>, u: Option<u64>, shell: Seq<char>, cmds: Seq<SystemdExecCommand>)
    ensures
        grows(p, with_str(p, n, o)),
        grows(p, with_u64(p, n, u)),
        grows(p, with_commands(p, n, shell, cmds)),
{
    if let Some(v) = o {
        lemma_pushed_has(p, n, PropView::Str(v@));
    }
    if let Some(v) = u {
        lemma_pushed_has(p, n, PropView::U64(v));
    }
    if cmds.len() > 0 {
        lemma_pushed_has(p, n, PropView::Commands(shell_commands_spec(shell, cmds)));
    }
}

proof fn lemma_with_lacks(p: Seq<(Seq<char>, PropView)>, n: Seq<char>, o: Option<String>, u: Option<u64>, shell: Seq<char>, cmds: Seq<SystemdExecCommand>, name: Seq<char>)
    requires
        lacks_prop(p, name),
        n != name,
    ensures
        lacks_prop(with_str(p, n, o), name),
        lacks_prop(with_u64(p, n, u), name),
        lacks_prop(with_commands(p, n, shell, cmds), name),
{
    if let Some(v) = o {
        lemma_push_lacks(p, (n, PropView::Str(v@)), name);
    }
    if let Some(v) = u {
        lemma_push_lacks(p, (n, PropView::U64(v)), name);
    }
    if cmds.len() > 0 {
        lemma_push_lacks(p, (n, PropView::Commands(shell_commands_spec(shell, cmds))), name);
    }
}

/// The successive property lists `service_props_spec` builds, each one
/// setting more than the one before, the last being the result.
proof fn lemma_service_stages(
    shell: Seq<char>,
    exec: Exec,
    sd: ServiceSystemd,
    description: Seq<char>,
    environment: Seq<Seq<char>>,
    data: Seq<char>,
    configs: Seq<(String, String)>,
) -> (st: Seq<Seq<(Seq<char>, PropView)>>)
    requires
        service_props_spec(shell, exec, sd, description, environment, data, configs) is Ok,
    ensures
        st.len() == 16,
        st[0] == unit_header(description) + seq![
            ("ExecStart"@, PropView::Commands(seq![(
                systemd_argv_spec(exec, shell, configs)->Ok_0.0,
                systemd_argv_spec(exec, shell, configs)->Ok_0.1,
                sd.ignore_start_failure,
            )])),
            ("Environment"@, PropView::Strings(environment)),
            ("WorkingDirectory"@, PropView::Str(
                match sd.working_directory {
                    Some(w) => w@,
                    None => data,
                },
            )),
        ],
        st[1] == with_commands(st[0], "ExecStartPre"@, shell, sd.exec_start_pre@),
        st[2] == with_commands(st[1], "ExecStartPost"@, shell, sd.exec_start_post@),
        st[3] == with_commands(st[2], "ExecReload"@, shell, sd.exec_reload@),
        st[4] == with_commands(st[3], "ExecStop"@, shell, sd.exec_stop@),
        st[5] == with_str(st[4], "Type"@, sd.service_type),
        st[6] == match notify_access_spec(sd) {
            Some(n) => st[5].push(("NotifyAccess"@, PropView::Str(n))),
            None => st[5],
        },
        st[7] == with_str(st[6], "Restart"@, sd.restart),
        st[8] == with_u64(st[7], "RestartUSec"@, opt_duration_spec("RestartSec"@, sd.restart_sec)->Ok_0),
        st[9] == with_u64(
            st[8],
            "TimeoutStartUSec"@,
            if sd.timeout_start_sec is None {
                opt_duration_spec("TimeoutSec"@, sd.timeout_sec)->Ok_0
            } else {
                None
            },
        ),
        st[10] == with_u64(
            st[9],
            "TimeoutStopUSec"@,
            if sd.timeout_stop_sec is None {
                opt_duration_spec("TimeoutSec"@, sd.timeout_sec)->Ok_0
            } else {
                None
            },
        ),
        st[11] == with_u64(st[10], "TimeoutStartUSec"@, opt_duration_spec("TimeoutStartSec"@, sd.timeout_start_sec)->Ok_0),
        st[12] == with_u64(st[11], "TimeoutStopUSec"@, opt_duration_spec("TimeoutStopSec"@, sd.timeout_stop_sec)->Ok_0),
        st[13] == with_u64(st[12], "WatchdogUSec"@, opt_duration_spec("WatchdogSec"@, sd.watchdog_sec)->Ok_0),
        st[14] == with_str(st[13], "KillMode"@, sd.kill_mode),
        st[15] == match sd.remain_after_exit {
            Some(x) => st[14].push(("RemainAfterExit"@, PropView::Bool(x))),
            None => st[14],
        },
        st[15] == service_props_spec(shell, exec, sd, description, environment, data, configs)->Ok_0,
        forall|k: int| 0 <= k < 16 ==> grows(#[trigger] st[k], st[15]),
{
    let pa = systemd_argv_spec(exec, shell, configs)->Ok_0;
    let wd = match sd.working_directory {
        Some(w) => w@,
        None => data,
    };
    let s0 = unit_header(description) + seq![
        ("ExecStart"@, PropView::Commands(seq![(pa.0, pa.1, sd.ignore_start_failure)])),
        ("Environment"@, PropView::Strings(environment)),
        ("WorkingDirectory"@, PropView::Str(wd)),
    ];
    let s1 = with_commands(s0, "ExecStartPre"@, shell, sd.exec_start_pre@);
    let s2 = with_commands(s1, "ExecStartPost"@, shell, sd.exec_start_post@);
    let s3 = with_commands(s2, "ExecReload"@, shell, sd.exec_reload@);
    let s4 = with_commands(s3, "ExecStop"@, shell, sd.exec_stop@);
    let s5 = with_str(s4, "Type"@, sd.service_type);
    let s6 = match notify_access_spec(sd) {
        Some(n) => s5.push(("NotifyAccess"@, PropView::Str(n))),
        None => s5,
    };
    let s7 = with_str(s6, "Restart"@, sd.restart);
    let rs = opt_duration_spec("RestartSec"@, sd.restart_sec)->Ok_0;
    let s8 = with_u64(s7, "RestartUSec"@, rs);
    let ts = opt_duration_spec("TimeoutSec"@, sd.timeout_sec)->Ok_0;
    let ts1 = if sd.timeout_start_sec is None { ts } else { None };
    let ts2 = if sd.timeout_stop_sec is None { ts } else { None };
    let s9 = with_u64(s8, "TimeoutStartUSec"@, ts1);
    let s10 = with_u64(s9, "TimeoutStopUSec"@, ts2);
    let a = opt_duration_spec("TimeoutStartSec"@, sd.timeout_start_sec)->Ok_0;
    let b = opt_duration_spec("TimeoutStopSec"@, sd.timeout_stop_sec)->Ok_0;
    let w = opt_duration_spec("WatchdogSec"@, sd.watchdog_sec)->Ok_0;
    let s11 = with_u64(s10, "TimeoutStartUSec"@, a);
    let s12 = with_u64(s11, "TimeoutStopUSec"@, b);
    let s13 = with_u64(s12, "WatchdogUSec"@, w);
    let s14 = with_str(s13, "KillMode"@, sd.kill_mode);
    let s15 = match sd.remain_after_exit {
        Some(x) => s14.push(("RemainAfterExit"@, PropView::Bool(x))),
        None => s14,
    };
    let st = seq![s0, s1, s2, s3, s4, s5, s6, s7, s8, s9, s10, s11, s12, s13, s14, s15];
    assert(s15 == service_props_spec(shell, exec, sd, description, environment, data, configs)->Ok_0);
    lemma_with_grows(s0, "ExecStartPre"@, None, None, shell, sd.exec_start_pre@);
    lemma_with_grows(s1, "ExecStartPost"@, None, None, shell, sd.exec_start_post@);
    lemma_with_grows(s2, "ExecReload"@, None, None, shell, sd.exec_reload@);
    lemma_with_grows(s3, "ExecStop"@, None, None, shell, sd.exec_stop@);
    lemma_with_grows(s4, "Type"@, sd.service_type, None, shell, seq![]);
    if let Some(n) = notify_access_spec(sd) {
        lemma_pushed_has(s5, "NotifyAccess"@, PropView::Str(n));
    }
    lemma_with_grows(s6, "Restart"@, sd.restart, None, shell, seq![]);
    lemma_with_grows(s7, "RestartUSec"@, None, rs, shell, seq![]);
    lemma_with_grows(s8, "TimeoutStartUSec"@, None, ts1, shell, seq![]);
    lemma_with_grows(s9, "TimeoutStopUSec"@, None, ts2, shell, seq![]);
    lemma_with_grows(s10, "TimeoutStartUSec"@, None, a, shell, seq![]);
    lemma_with_grows(s11, "TimeoutStopUSec"@, None, b, shell, seq![]);
    lemma_with_grows(s12, "WatchdogUSec"@, None, w, shell, seq![]);
    lemma_with_grows(s13, "KillMode"@, sd.kill_mode, None, shell, seq![]);
    if let Some(x) = sd.remain_after_exit {
        lemma_pushed_has(s14, "RemainAfterExit"@, PropView::Bool(x));
    }
    assert(grows(s15, s15));
    lemma_grows_trans(s14, s15, s15);
    lemma_grows_trans(s13, s14, s15);
    lemma_grows_trans(s12, s13, s15);
    lemma_grows_trans(s11, s12, s15);
    lemma_grows_trans(s10, s11, s15);
    lemma_grows_trans(s9, s10, s15);
    lemma_grows_trans(s8, s9, s15);
    lemma_grows_trans(s7, s8, s15);
    lemma_grows_trans(s6, s7, s15);
    lemma_grows_trans(s5, s6, s15);
    lemma_grows_trans(s4, s5, s15);
    lemma_grows_trans(s3, s4, s15);
    lemma_grows_trans(s2, s3, s15);
    lemma_grows_trans(s1, s2, s15);
    lemma_grows_trans(s0, s1, s15);
    assert forall|k: int| 0 <= k < 16 implies grows(#[trigger] st[k], st[15]) by {
        assert(st[15] == s15);
    }
    st
}

/// A service without a restart policy gets no `Restart` property.
proof fn lemma_service_lacks_restart(
    shell: Seq<char>,
    exec: Exec,
    sd: ServiceSystemd,
    description: Seq<char>,
    environment: Seq<Seq<char>>,
    data: Seq<char>,
    configs: Seq<(String, String)>,
)
    requires
        service_props_spec(shell, exec, sd, description, environment, data, configs) is Ok,
        sd.restart is None,
    ensures
        lacks_prop(service_props_spec(shell, exec, sd, description, environment, data, configs)->Ok_0, "Restart"@),
{
    let st = lemma_service_stages(shell, exec, sd, description, environment, data, configs);
    let r = "Restart"@;
    assert({
        &&& "Description"@ != r
        &&& "CollectMode"@ != r
        &&& "ExecStart"@ != r
        &&& "Environment"@ != r
        &&& "WorkingDirectory"@ != r
        &&& "ExecStartPre"@ != r
        &&& "ExecStartPost"@ != r
        &&& "ExecReload"@ != r
        &&& "ExecStop"@ != r
        &&& "Type"@ != r
        &&& "NotifyAccess"@ != r
        &&& "RestartUSec"@ != r
        &&& "TimeoutStartUSec"@ != r
        &&& "TimeoutStopUSec"@ != r
        &&& "WatchdogUSec"@ != r
        &&& "KillMode"@ != r
        &&& "RemainAfterExit"@ != r
    }) by {
        reveal_strlit("Restart");
        assert("Restart"@.len() == 7);
        reveal_strlit("Description");
        assert("Description"@.len() == 11);
        reveal_strlit("CollectMode");
        assert("CollectMode"@.len() == 11);
        reveal_strlit("ExecStart");
        assert("ExecStart"@.len() == 9);
        reveal_strlit("Environment");
        assert("Environment"@.len() == 11);
        reveal_strlit("WorkingDirectory");
        assert("WorkingDirectory"@.len() == 16);
        reveal_strlit("ExecStartPre");
        assert("ExecStartPre"@.len() == 12);
        reveal_strlit("ExecStartPost");
        assert("ExecStartPost"@.len() == 13);
        reveal_strlit("ExecReload");
        assert("ExecReload"@.len() == 10);
        reveal_strlit("ExecStop");
        assert("ExecStop"@.len() == 8);
        reveal_strlit("Type");
        assert("Type"@.len() == 4);
        reveal_strlit("NotifyAccess");
        assert("NotifyAccess"@.len() == 12);
        reveal_strlit("RestartUSec");
        assert("RestartUSec"@.len() == 11);
        reveal_strlit("TimeoutStartUSec");
        assert("TimeoutStartUSec"@.len() == 16);
        reveal_strlit("TimeoutStopUSec");
        assert("TimeoutStopUSec"@.len() == 15);
        reveal_strlit("WatchdogUSec");
        assert("WatchdogUSec"@.len() == 12);
        reveal_strlit("KillMode");
        assert("KillMode"@.len() == 8);
        reveal_strlit("RemainAfterExit");
        assert("RemainAfterExit"@.len() == 15);
    }
    let s0 = st[0];
    assert forall|i: int| 0 <= i < s0.len() implies (#[trigger] s0[i]).0 != r by {
        if i == 0 {
            assert(s0[i].0 == "Description"@);
        } else if i == 1 {
            assert(s0[i].0 == "CollectMode"@);
        } else if i == 2 {
            assert(s0[i].0 == "ExecStart"@);
        } else if i == 3 {
            assert(s0[i].0 == "Environment"@);
        } else {
            assert(s0[i].0 == "WorkingDirectory"@);
        }
    }
    let none_s: Option<String> = None;
    let none_u: Option<u64> = None;
    let no_cmds: Seq<SystemdExecCommand> = seq![];
    lemma_with_lacks(st[0], "ExecStartPre"@, none_s, none_u, shell, sd.exec_start_pre@, r);
    lemma_with_lacks(st[1], "ExecStartPost"@, none_s, none_u, shell, sd.exec_start_post@, r);
    lemma_with_lacks(st[2], "ExecReload"@, none_s, none_u, shell, sd.exec_reload@, r);
    lemma_with_lacks(st[3], "ExecStop"@, none_s, none_u, shell, sd.exec_stop@, r);
    lemma_with_lacks(st[4], "Type"@, sd.service_type, none_u, shell, no_cmds, r);
    if let Some(n) = notify_access_spec(sd) {
        lemma_push_lacks(st[5], ("NotifyAccess"@, PropView::Str(n)), r);
    }
    assert(st[7] == st[6]);
    let ts = opt_duration_spec("TimeoutSec"@, sd.timeout_sec)->Ok_0;
    lemma_with_lacks(st[7], "RestartUSec"@, none_s, opt_duration_spec("RestartSec"@, sd.restart_sec)->Ok_0, shell, no_cmds, r);
    lemma_with_lacks(st[8], "TimeoutStartUSec"@, none_s, if sd.timeout_start_sec is None { ts } else { None }, shell, no_cmds, r);
    lemma_with_lacks(st[9], "TimeoutStopUSec"@, none_s, if sd.timeout_stop_sec is None { ts } else { None }, shell, no_cmds, r);
    lemma_with_lacks(st[10], "TimeoutStartUSec"@, none_s, opt_duration_spec("TimeoutStartSec"@, sd.timeout_start_sec)->Ok_0, shell, no_cmds, r);
    lemma_with_lacks(st[11], "TimeoutStopUSec"@, none_s, opt_duration_spec("TimeoutStopSec"@, sd.timeout_stop_sec)->Ok_0, shell, no_cmds, r);
    lemma_with_lacks(st[12], "WatchdogUSec"@, none_s, opt_duration_spec("WatchdogSec"@, sd.watchdog_sec)->Ok_0, shell, no_cmds, r);
    lemma_with_lacks(st[13], "KillMode"@, sd.kill_mode, none_u, shell, no_cmds, r);
    if let Some(x) = sd.remain_after_exit {
        lemma_push_lacks(st[14], ("RemainAfterExit"@, PropView::Bool(x)), r);
    }
}

/// Law: every systemd setting of a service that is set appears among the
/// properties of its unit, with its value: its restart policy as
/// `Restart`, its type as `Type`, its kill mode as `KillMode`, its notify
/// access and `RemainAfterExit` as themselves, and each duration in
/// microseconds under its `USec` name, `TimeoutSec` standing for whichever
/// of the start and stop timeouts is not set; a service without a restart
/// policy gets no `Restart` property at all.
pub proof fn lemma_service_settings_kept(
    shell: Seq<char>,
    exec: Exec,
    sd: ServiceSystemd,
    description: Seq<char>,
    environment: Seq<Seq<char>>,
    data: Seq<char>,
    configs: Seq<(String, String)>,
)
    requires
        service_props_spec(shell, exec, sd, description, environment, data, configs) is Ok,
    ensures
        ({
            let props = service_props_spec(shell, exec, sd, description, environment, data, configs)->Ok_0;
            &&& (sd.restart matches Some(r) ==> has_prop(props, "Restart"@, PropView::Str(r@)))
            &&& (sd.restart is None ==> lacks_prop(props, "Restart"@))
            &&& (sd.service_type matches Some(t) ==> has_prop(props, "Type"@, PropView::Str(t@)))
            &&& (sd.kill_mode matches Some(k) ==> has_prop(props, "KillMode"@, PropView::Str(k@)))
            &&& (sd.remain_after_exit matches Some(x) ==> has_prop(props, "RemainAfterExit"@, PropView::Bool(x)))
            &&& (sd.notify_access matches Some(n) ==> has_prop(props, "NotifyAccess"@, PropView::Str(n@)))
            &&& (sd.restart_sec matches Some(v) ==> has_prop(
                props,
                "RestartUSec"@,
                PropView::U64(parse_duration_spec("RestartSec"@, v@)->Ok_0),
            ))
            &&& (sd.timeout_start_sec matches Some(v) ==> has_prop(
                props,
                "TimeoutStartUSec"@,
                PropView::U64(parse_duration_spec("TimeoutStartSec"@, v@)->Ok_0),
            ))
            &&& (sd.timeout_stop_sec matches Some(v) ==> has_prop(
                props,
                "TimeoutStopUSec"@,
                PropView::U64(parse_duration_spec("TimeoutStopSec"@, v@)->Ok_0),
            ))
            &&& (sd.watchdog_sec matches Some(v) ==> has_prop(
                props,
                "WatchdogUSec"@,
                PropView::U64(parse_duration_spec("WatchdogSec"@, v@)->Ok_0),
            ))
            &&& (sd.timeout_start_sec is None ==> (sd.timeout_sec matches Some(v) ==> has_prop(
                props,
                "TimeoutStartUSec"@,
                PropView::U64(parse_duration_spec("TimeoutSec"@, v@)->Ok_0),
            )))
            &&& (sd.timeout_stop_sec is None ==> (sd.timeout_sec matches Some(v) ==> has_prop(
                props,
                "TimeoutStopUSec"@,
                PropView::U64(parse_duration_spec("TimeoutSec"@, v@)->Ok_0),
            )))
        }),
{
    let st = lemma_service_stages(shell, exec, sd, description, environment, data, configs);
    let last = st[15];
    if sd.restart is None {
        lemma_service_lacks_restart(shell, exec, sd, description, environment, data, configs);
    }
    if let Some(t) = sd.service_type {
        lemma_pushed_has(st[4], "Type"@, PropView::Str(t@));
        lemma_grows_has(st[5], last, "Type"@, PropView::Str(t@));
    }
    if let Some(n) = sd.notify_access {
        lemma_pushed_has(st[5], "NotifyAccess"@, PropView::Str(n@));
        lemma_grows_has(st[6], last, "NotifyAccess"@, PropView::Str(n@));
    }
    if let Some(v) = sd.restart {
        lemma_pushed_has(st[6], "Restart"@, PropView::Str(v@));
        lemma_grows_has(st[7], last, "Restart"@, PropView::Str(v@));
    }
    if let Some(v) = opt_duration_spec("RestartSec"@, sd.restart_sec)->Ok_0 {
        lemma_pushed_has(st[7], "RestartUSec"@, PropView::U64(v));
        lemma_grows_has(st[8], last, "RestartUSec"@, PropView::U64(v));
    }
    let ts = opt_duration_spec("TimeoutSec"@, sd.timeout_sec)->Ok_0;
    if let Some(v) = ts {
        if sd.timeout_start_sec is None {
            lemma_pushed_has(st[8], "TimeoutStartUSec"@, PropView::U64(v));
            lemma_grows_has(st[9], last, "TimeoutStartUSec"@, PropView::U64(v));
        }
        if sd.timeout_stop_sec is None {
            lemma_pushed_has(st[9], "TimeoutStopUSec"@, PropView::U64(v));
            lemma_grows_has(st[10], last, "TimeoutStopUSec"@, PropView::U64(v));
        }
    }
    if let Some(v) = opt_duration_spec("TimeoutStartSec"@, sd.timeout_start_sec)->Ok_0 {
        lemma_pushed_has(st[10], "TimeoutStartUSec"@, PropView::U64(v));
        lemma_grows_has(st[11], last, "TimeoutStartUSec"@, PropView::U64(v));
    }
    if let Some(v) = opt_duration_spec("TimeoutStopSec"@, sd.timeout_stop_sec)->Ok_0 {
        lemma_pushed_has(st[11], "TimeoutStopUSec"@, PropView::U64(v));
        lemma_grows_has(st[12], last, "TimeoutStopUSec"@, PropView::U64(v));
    }
    if let Some(v) = opt_duration_spec("WatchdogSec"@, sd.watchdog_sec)->Ok_0 {
        lemma_pushed_has(st[12], "WatchdogUSec"@, PropView::U64(v));
        lemma_grows_has(st[13], last, "WatchdogUSec"@, PropView::U64(v));
    }
    if let Some(k) = sd.kill_mode {
        lemma_pushed_has(st[13], "KillMode"@, PropView::Str(k@));
        lemma_grows_has(st[14], last, "KillMode"@, PropView::Str(k@));
    }
    if let Some(x) = sd.remain_after_exit {
        lemma_pushed_has(st[14], "RemainAfterExit"@, PropView::Bool(x));
    }
}

/// Law: the unit of a service carries its description, its command as
/// `ExecStart`, its environment and its working directory (the data
/// directory by default), and each list of extra commands that is not
/// empty under its own name (`ExecStartPre`, `ExecStartPost`,
/// `ExecReload`, `ExecStop`), every command run through the set's shell.
pub proof fn lemma_service_launch_kept(
    shell: Seq<char>,
    exec: Exec,
    sd: ServiceSystemd,
    description: Seq<char>,
    environment: Seq<Seq<char>>,
    data: Seq<char>,
    configs: Seq<(String, String)>,
)
    requires
        service_props_spec(shell, exec, sd, description, environment, data, configs) is Ok,
    ensures
        ({
            let props = service_props_spec(shell, exec, sd, description, environment, data, configs)->Ok_0;
            &&& has_prop(props, "Description"@, PropView::Str(description))
            &&& has_prop(
                props,
                "ExecStart"@,
                PropView::Commands(
                    seq![(
                        systemd_argv_spec(exec, shell, configs)->Ok_0.0,
                        systemd_argv_spec(exec, shell, configs)->Ok_0.1,
                        sd.ignore_start_failure,
                    )],
                ),
            )
            &&& has_prop(props, "Environment"@, PropView::Strings(environment))
            &&& has_prop(
                props,
                "WorkingDirectory"@,
                PropView::Str(
                    match sd.working_directory {
                        Some(w) => w@,
                        None => data,
                    },
                ),
            )
            &&& (sd.exec_start_pre@.len() > 0 ==> has_prop(
                props,
                "ExecStartPre"@,
                PropView::Commands(shell_commands_spec(shell, sd.exec_start_pre@)),
            ))
            &&& (sd.exec_start_post@.len() > 0 ==> has_prop(
                props,
                "ExecStartPost"@,
                PropView::Commands(shell_commands_spec(shell, sd.exec_start_post@)),
            ))
            &&& (sd.exec_reload@.len() > 0 ==> has_prop(
                props,
                "ExecReload"@,
                PropView::Commands(shell_commands_spec(shell, sd.exec_reload@)),
            ))
            &&& (sd.exec_stop@.len() > 0 ==> has_prop(
                props,
                "ExecStop"@,
                PropView::Commands(shell_commands_spec(shell, sd.exec_stop@)),
            ))
        }),
{
    let st = lemma_service_stages(shell, exec, sd, description, environment, data, configs);
    let last = st[15];
    let s0 = st[0];
    let pa = systemd_argv_spec(exec, shell, configs)->Ok_0;
    let wd = match sd.working_directory {
        Some(w) => w@,
        None => data,
    };
    assert(s0[0] == ("Description"@, PropView::Str(description)));
    lemma_grows_has(s0, last, "Description"@, PropView::Str(description));
    assert(s0[2] == ("ExecStart"@, PropView::Commands(seq![(pa.0, pa.1, sd.ignore_start_failure)])));
    lemma_grows_has(s0, last, "ExecStart"@, PropView::Commands(seq![(pa.0, pa.1, sd.ignore_start_failure)]));
    assert(s0[3] == ("Environment"@, PropView::Strings(environment)));
    lemma_grows_has(s0, last, "Environment"@, PropView::Strings(environment));
    assert(s0[4] == ("WorkingDirectory"@, PropView::Str(wd)));
    lemma_grows_has(s0, last, "WorkingDirectory"@, PropView::Str(wd));
    if sd.exec_start_pre@.len() > 0 {
        lemma_pushed_has(s0, "ExecStartPre"@, PropView::Commands(shell_commands_spec(shell, sd.exec_start_pre@)));
        lemma_grows_has(st[1], last, "ExecStartPre"@, PropView::Commands(shell_commands_spec(shell, sd.exec_start_pre@)));
    }
    if sd.exec_start_post@.len() > 0 {
        lemma_pushed_has(st[1], "ExecStartPost"@, PropView::Commands(shell_commands_spec(shell, sd.exec_start_post@)));
        lemma_grows_has(st[2], last, "ExecStartPost"@, PropView::Commands(shell_commands_spec(shell, sd.exec_start_post@)));
    }
    if sd.exec_reload@.len() > 0 {
        lemma_pushed_has(st[2], "ExecReload"@, PropView::Commands(shell_commands_spec(shell, sd.exec_reload@)));
        lemma_grows_has(st[3], last, "ExecReload"@, PropView::Commands(shell_commands_spec(shell, sd.exec_reload@)));
    }
    if sd.exec_stop@.len() > 0 {
        lemma_pushed_has(st[3], "ExecStop"@, PropView::Commands(shell_commands_spec(shell, sd.exec_stop@)));
        lemma_grows_has(st[4], last, "ExecStop"@, PropView::Commands(shell_commands_spec(shell, sd.exec_stop@)));
    }
}

/// Law: a socket with one `Listen` option listens on each of its values,
/// with the option's name after `Listen` as the listen type: a
/// `ListenDatagram` value is a datagram socket, a `ListenStream` value a
/// stream socket.
pub proof fn lemma_listen_option(name: String, values: Vec<String>)
    requires
        listen_type_spec(name@) is Some,
        values@.len() > 0,
    ensures
        kind_props_spec(ActivationKind::Socket, seq![(name, values)]) == Ok::<Seq<(Seq<char>, PropView)>, Seq<char>>(
            seq![("Listen"@, PropView::Pairs(tag_values(name@.skip(6), views(values@))))],
        ),
{
    let entries = seq![(name, values)];
    crate::units::lemma_listen_type_is_suffix(name@);
    let t = listen_type_spec(name@)->Some_0;
    reveal_strlit("Listen");
    assert("Listen"@.len() == 6);
    assert(name@.skip(6) =~= t);
    assert(entries.drop_last() =~= Seq::<(String, Vec<String>)>::empty());
    assert(lower_fold(ActivationKind::Socket, entries.drop_last()) == Ok::<LoweringState, Seq<char>>((seq![], seq![], seq![])));
    assert(entries.last() == (name, values));
    let vs = views(values@);
    assert(tag_values(t, vs).len() == vs.len());
    assert(Seq::<(Seq<char>, Seq<char>)>::empty() + tag_values(t, vs) =~= tag_values(t, vs));
    assert(Seq::<(Seq<char>, PropView)>::empty().push(("Listen"@, PropView::Pairs(tag_values(t, vs)))) =~= seq![
        ("Listen"@, PropView::Pairs(tag_values(t, vs))),
    ]);
}

} // verus!
