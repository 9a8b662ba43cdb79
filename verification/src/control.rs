//! What starting, stopping and querying a service does, decided from what
//! systemd reports about its units. The caller talks to systemd and hands
//! each report in.
use vstd::prelude::*;

use crate::manifest::{unit_name_spec, Manifest, Service};
use crate::properties::{
    activation_properties, activation_props_spec, props_view, service_properties,
    service_props_spec, PropView, PropertyValue,
};
use crate::runtime::PreparedRuntime;
use crate::strmap::{views, StrMap};
use crate::text::{cat, cat3, cat5, own, str_eq};
use crate::units::{
    activation_kind, activation_kind_spec, activation_specs_spec, activation_unit_name,
    activation_unit_name_spec, activation_unit_names, suffix_spec, ActivationKind,
};

verus! {

/// A unit as systemd lists it: its name and its load, active and sub
/// states.
pub struct UnitInfo {
    pub name: String,
    pub load: String,
    pub active: String,
    pub sub_state: String,
}

/// The unit is the one asked for and systemd knows it.
pub open spec fn matches_unit(u: UnitInfo, unit_name: Seq<char>) -> bool {
    u.name@ == unit_name && u.load@ != "not-found"@
}

/// The first listed unit that is `unit_name` and loaded (in any state but
/// `not-found`).
pub fn find_unit(units: &Vec<UnitInfo>, unit_name: &str) -> (r: Option<usize>)
    ensures
        r matches Some(i) ==> i < units@.len() && matches_unit(units@[i as int], unit_name@) && forall|j: int|
            0 <= j < i ==> !matches_unit(#[trigger] units@[j], unit_name@),
        r is None ==> forall|j: int| 0 <= j < units@.len() ==> !matches_unit(#[trigger] units@[j], unit_name@),
{
    let mut i: usize = 0;
    while i < units.len()
        invariant
            i <= units@.len(),
            forall|j: int| 0 <= j < i ==> !matches_unit(#[trigger] units@[j], unit_name@),
        decreases units.len() - i,
    {
        if str_eq(units[i].name.as_str(), unit_name) && !str_eq(units[i].load.as_str(), "not-found") {
            return Some(i);
        }
        i = i + 1;
    }
    None
}

/// Active states in which a unit counts as started.
pub open spec fn started_state(active: Seq<char>) -> bool {
    active == "active"@ || active == "activating"@ || active == "reloading"@
}

/// Active states in which a unit can still be stopped.
pub open spec fn stoppable_state(active: Seq<char>) -> bool {
    !(active == "inactive"@ || active == "failed"@)
}

/// Whether a unit is active, activating or reloading.
pub fn is_started(unit: &UnitInfo) -> (r: bool)
    ensures
        r == started_state(unit.active@),
{
    let a = unit.active.as_str();
    str_eq(a, "active") || str_eq(a, "activating") || str_eq(a, "reloading")
}

/// Whether a unit is neither inactive nor failed.
pub fn is_stoppable(unit: &UnitInfo) -> (r: bool)
    ensures
        r == stoppable_state(unit.active@),
{
    let a = unit.active.as_str();
    !(str_eq(a, "inactive") || str_eq(a, "failed"))
}

/// The state of a unit as the status shows it.
pub struct UnitStatus {
    pub name: String,
    pub load: String,
    pub active: String,
    pub sub_state: String,
}

/// The status of unit `unit_name`: what systemd reports for it, or
/// `not-found`, `inactive`, `dead` when it is not loaded.
pub fn unit_status(unit_name: &str, found: Option<&UnitInfo>) -> (r: UnitStatus)
    ensures
        r.name@ == unit_name@,
        found matches Some(u) ==> r.load@ == u.load@ && r.active@ == u.active@ && r.sub_state@ == u.sub_state@,
        found is None ==> r.load@ == "not-found"@ && r.active@ == "inactive"@ && r.sub_state@ == "dead"@,
{
    match found {
        Some(u) => UnitStatus {
            name: own(unit_name),
            load: own(u.load.as_str()),
            active: own(u.active.as_str()),
            sub_state: own(u.sub_state.as_str()),
        },
        None => UnitStatus {
            name: own(unit_name),
            load: own("not-found"),
            active: own("inactive"),
            sub_state: own("dead"),
        },
    }
}

/// The two lines the text status shows for a service.
pub open spec fn status_text_spec(name: Seq<char>, s: UnitStatus) -> Seq<char> {
    name + "\t"@ + s.load@ + "\t"@ + s.active@ + "\t"@ + s.sub_state@ + "\n"@ + "  unit: "@ + s.name@ + "\n"@
}

/// The text status of a service: its states on one line, its unit below.
pub fn status_text(name: &str, status: &UnitStatus) -> (r: String)
    ensures
        r@ == status_text_spec(name@, *status),
{
    let a = cat5(name, "\t", status.load.as_str(), "\t", status.active.as_str());
    let b = cat5(a.as_str(), "\t", status.sub_state.as_str(), "\n", "  unit: ");
    cat3(b.as_str(), status.name.as_str(), "\n")
}

/// The message when the unit of a service is already started.
pub open spec fn already_started_msg(name: Seq<char>, active: Seq<char>) -> Seq<char> {
    "[ides]: "@ + name + " already "@ + active
}

/// Whether starting service `name` is skipped, given what systemd reports
/// for the unit that starts it: the message to print when it is.
pub fn start_skip(name: &str, found: Option<&UnitInfo>) -> (r: Option<String>)
    ensures
        match found {
            Some(u) => if started_state(u.active@) {
                r matches Some(m) && m@ == already_started_msg(name@, u.active@)
            } else {
                r is None
            },
            None => r is None,
        },
{
    match found {
        Some(u) => if is_started(u) {
            Some(cat3("[ides]: ", name, " already ").concat(u.active.as_str()))
        } else {
            None
        },
        None => None,
    }
}

/// A transient unit to start: its name, its properties, the units started
/// with it, the line printed once it started, and the text an error from
/// systemd is appended to.
pub struct StartRequest {
    pub unit: String,
    pub properties: Vec<(String, PropertyValue)>,
    pub aux: Vec<(String, Vec<(String, PropertyValue)>)>,
    pub started_message: String,
    pub failure_prefix: String,
}

/// The view of the units started along with a unit.
pub open spec fn aux_view(v: Seq<(String, Vec<(String, PropertyValue)>)>) -> Seq<(Seq<char>, Seq<(Seq<char>, PropView)>)> {
    v.map_values(|e: (String, Vec<(String, PropertyValue)>)| (e.0@, props_view(e.1@)))
}

/// A start request as plain values.
pub type StartView = (Seq<char>, Seq<(Seq<char>, PropView)>, Seq<(Seq<char>, Seq<(Seq<char>, PropView)>)>, Seq<char>, Seq<char>);

/// The view of a start request.
pub open spec fn start_view(r: StartRequest) -> StartView {
    (r.unit@, props_view(r.properties@), aux_view(r.aux@), r.started_message@, r.failure_prefix@)
}

/// What starting service `name` asks of systemd: its activation unit,
/// with the service unit alongside, when it has one; else its service
/// unit.
pub open spec fn start_request_spec(
    manifest: Manifest,
    name: Seq<char>,
    service: Service,
    environment: Seq<Seq<char>>,
    data: Seq<char>,
    configs: Seq<(String, String)>,
) -> Result<StartView, Seq<char>> {
    let unit = unit_name_spec(service.unit_name@);
    match service_props_spec(
        manifest.runtime_shell@,
        service.execution,
        service.systemd,
        "ides service "@ + name,
        environment,
        data,
        configs,
    ) {
        Err(e) => Err(e),
        Ok(sp) => match activation_kind_spec(service) {
            Err(e) => Err(e),
            Ok(None) => Ok((unit, sp, seq![], "[ides]: started "@ + name, "failed to start "@ + name + " ("@ + unit + "): "@)),
            Ok(Some(k)) => {
                let au = activation_unit_name_spec(service.unit_name@, k);
                match activation_props_spec(service, k, "ides "@ + suffix_spec(k) + " activation for "@ + name) {
                    Err(e) => Err(e),
                    Ok(ap) => Ok((
                        au,
                        ap,
                        seq![(unit, sp)],
                        "[ides]: started "@ + name + " "@ + suffix_spec(k),
                        "failed to start "@ + name + " activation ("@ + au + "): "@,
                    )),
                }
            },
        },
    }
}

/// What starting service `name` asks of systemd, once its runtime is
/// prepared and its configs rendered.
pub fn start_request(
    manifest: &Manifest,
    name: &str,
    service: &Service,
    runtime: &PreparedRuntime,
    configs: &StrMap<String>,
) -> (r: Result<StartRequest, String>)
    ensures
        r matches Ok(q) ==> start_request_spec(*manifest, name@, *service, views(runtime.environment@), runtime.paths.data@, configs@)
            == Ok::<StartView, Seq<char>>(start_view(q)),
        r matches Err(e) ==> start_request_spec(*manifest, name@, *service, views(runtime.environment@), runtime.paths.data@, configs@)
            == Err::<StartView, Seq<char>>(e@),
{
    let unit = service.systemd_unit_name();
    let description = cat("ides service ", name);
    let sp = service_properties(manifest, name, service, description, runtime, configs)?;
    match activation_kind(service)? {
        None => {
            let started_message = cat("[ides]: started ", name);
            let failure_prefix = cat5("failed to start ", name, " (", unit.as_str(), "): ");
            let aux: Vec<(String, Vec<(String, PropertyValue)>)> = Vec::new();
            assert(aux_view(aux@) =~= seq![]);
            Ok(StartRequest { unit, properties: sp, aux, started_message, failure_prefix })
        },
        Some(kind) => {
            let au = activation_unit_name(service, kind);
            let description = cat3("ides ", kind.suffix(), " activation for ").concat(name);
            let ap = activation_properties(service, kind, description)?;
            let started_message = cat3("[ides]: started ", name, " ").concat(kind.suffix());
            let failure_prefix = cat5("failed to start ", name, " activation (", au.as_str(), "): ");
            let ghost uv = unit@;
            let ghost spv = props_view(sp@);
            let mut aux: Vec<(String, Vec<(String, PropertyValue)>)> = Vec::new();
            aux.push((unit, sp));
            assert(aux_view(aux@) =~= seq![(uv, spv)]);
            Ok(StartRequest { unit: au, properties: ap, aux, started_message, failure_prefix })
        },
    }
}

/// The units stopped for a service: its activation units, then its
/// service unit.
pub open spec fn stop_units_spec(service: Service) -> Seq<Seq<char>> {
    activation_specs_spec(service).map_values(|e: (ActivationKind, Seq<char>)| e.1).push(
        unit_name_spec(service.unit_name@),
    )
}

/// The units stopped for a service, in the order they are stopped.
pub fn stop_units(service: &Service) -> (r: Result<Vec<String>, String>)
    ensures
        r matches Ok(v) && views(v@) == stop_units_spec(*service),
{
    let mut units = activation_unit_names(service)?;
    let ghost prev = units@;
    units.push(service.systemd_unit_name());
    assert(views(units@) =~= views(prev).push(unit_name_spec(service.unit_name@)));
    Ok(units)
}

/// What stopping a unit does, given what systemd reports for it.
pub enum StopDecision {
    /// Stop it; print the message once stopped, or append systemd's error
    /// to the prefix.
    Stop { message: String, failure_prefix: String },
    /// Print the message; the unit is already stopped.
    AlreadyStopped { message: String },
    /// Print the message; systemd does not know the unit.
    NotLoaded { message: String },
}

/// Whether unit `unit_name` of service `name` is stopped.
pub fn stop_decision(name: &str, unit_name: &str, found: Option<&UnitInfo>) -> (r: StopDecision)
    ensures
        match found {
            Some(u) => if stoppable_state(u.active@) {
                r matches StopDecision::Stop { message, failure_prefix } && message@ == "[ides]: stopped "@ + name@
                    && failure_prefix@ == "failed to stop "@ + name@ + " ("@ + unit_name@ + "): "@
            } else {
                r matches StopDecision::AlreadyStopped { message } && message@ == "[ides]: "@ + name@ + " already stopped"@
            },
            None => r matches StopDecision::NotLoaded { message } && message@ == "[ides]: "@ + name@ + " is not loaded"@,
        },
{
    match found {
        Some(u) => if is_stoppable(u) {
            StopDecision::Stop {
                message: cat("[ides]: stopped ", name),
                failure_prefix: cat5("failed to stop ", name, " (", unit_name, "): "),
            }
        } else {
            StopDecision::AlreadyStopped { message: cat3("[ides]: ", name, " already stopped") }
        },
        None => StopDecision::NotLoaded { message: cat3("[ides]: ", name, " is not loaded") },
    }
}

/// The next step of waiting for a service unit to stop.
pub enum WaitStep {
    Done,
    Wait,
    TimedOut(String),
}

/// Whether to keep waiting for unit `unit_name` of service `name` to
/// stop: done once it is gone or stopped; else wait, unless the deadline
/// has passed.
pub fn wait_step(name: &str, unit_name: &str, found: Option<&UnitInfo>, past_deadline: bool) -> (r: WaitStep)
    ensures
        match found {
            Some(u) => if stoppable_state(u.active@) {
                if past_deadline {
                    r matches WaitStep::TimedOut(m) && m@ == "timed out waiting for "@ + name@ + " ("@ + unit_name@ + ") to stop"@
                } else {
                    r is Wait
                }
            } else {
                r is Done
            },
            None => r is Done,
        },
{
    match found {
        Some(u) => if is_stoppable(u) {
            if past_deadline {
                WaitStep::TimedOut(cat5("timed out waiting for ", name, " (", unit_name, ") to stop"))
            } else {
                WaitStep::Wait
            }
        } else {
            WaitStep::Done
        },
        None => WaitStep::Done,
    }
}

} // verus!
