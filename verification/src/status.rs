//! The status of a service set: each service's units as systemd reports
//! them, its runtime directories, environment and configs, and the
//! set's leases.
use vstd::prelude::*;

use crate::control::UnitStatus;
use crate::leases::Lease;
use crate::manifest::{ConfigFile, Service};
use crate::runtime::{config_status, config_status_spec, ConfigStatus, RuntimePathSet};
use crate::strmap::StrMap;
use crate::text::{opt_str, own};
use crate::units::ActivationKind;

verus! {

/// The state of one activation unit of a service.
pub struct ActivationStatus {
    pub kind: ActivationKind,
    pub unit: UnitStatus,
}

/// A config of a service and whether its file exists.
pub struct ConfigState {
    pub status: ConfigStatus,
    pub exists: bool,
}

/// The status of one service.
pub struct ServiceStatus {
    pub service_unit: UnitStatus,
    pub start_unit: UnitStatus,
    pub activation_units: Vec<ActivationStatus>,
    pub ephemeral: bool,
    pub paths: RuntimePathSet,
    pub environment: StrMap<String>,
    pub configs: StrMap<ConfigState>,
}

/// The status of a set: its name, id, runtime base and root, its leases,
/// and its services by name.
pub struct SetStatus {
    pub name: String,
    pub set_id: String,
    pub base: String,
    pub root: String,
    pub leases: Vec<Lease>,
    pub services: StrMap<ServiceStatus>,
}

/// A config status as plain values: kind, path and runtime file name.
pub type ConfigStatusView = (Seq<char>, Seq<char>, Option<Seq<char>>);

/// The status of each config, in name order, or the first error.
pub open spec fn configs_status_spec(
    service_name: Seq<char>,
    configs: Seq<(String, ConfigFile)>,
    config_dir: Seq<char>,
) -> Result<Seq<(Seq<char>, ConfigStatusView)>, Seq<char>>
    decreases configs.len(),
{
    if configs.len() == 0 {
        Ok(seq![])
    } else {
        match configs_status_spec(service_name, configs.drop_last(), config_dir) {
            Err(e) => Err(e),
            Ok(v) => match config_status_spec(service_name, configs.last().0@, configs.last().1, config_dir) {
                Err(e) => Err(e),
                Ok(c) => Ok(v.push((configs.last().0@, c))),
            },
        }
    }
}

/// The view of a list of config statuses.
pub open spec fn config_statuses_view(v: Seq<(String, ConfigStatus)>) -> Seq<(Seq<char>, ConfigStatusView)> {
    v.map_values(|e: (String, ConfigStatus)| (e.0@, (e.1.kind@, e.1.path@, opt_str(e.1.file_name))))
}

/// An error on a prefix of the configs is the error of all of them.
proof fn lemma_configs_error_persists(
    service_name: Seq<char>,
    configs: Seq<(String, ConfigFile)>,
    config_dir: Seq<char>,
    k: int,
)
    requires
        0 <= k <= configs.len(),
        configs_status_spec(service_name, configs.take(k), config_dir) is Err,
    ensures
        configs_status_spec(service_name, configs, config_dir) == configs_status_spec(service_name, configs.take(k), config_dir),
    decreases configs.len(),
{
    if k == configs.len() {
        assert(configs.take(k) =~= configs);
    } else {
        assert(configs.drop_last().take(k) =~= configs.take(k));
        lemma_configs_error_persists(service_name, configs.drop_last(), config_dir, k);
    }
}

/// The status of each config of a service, in name order. Whether each
/// file exists the caller finds out.
pub fn configs_status(service_name: &str, service: &Service, paths: &RuntimePathSet) -> (r: Result<
    Vec<(String, ConfigStatus)>,
    String,
>)
    ensures
        r matches Ok(v) ==> configs_status_spec(service_name@, service.configs@, paths.config@) == Ok::<
            Seq<(Seq<char>, ConfigStatusView)>,
            Seq<char>,
        >(config_statuses_view(v@)),
        r matches Err(e) ==> configs_status_spec(service_name@, service.configs@, paths.config@) == Err::<
            Seq<(Seq<char>, ConfigStatusView)>,
            Seq<char>,
        >(e@),
{
    let entries = service.configs.entries();
    let mut out: Vec<(String, ConfigStatus)> = Vec::new();
    let mut i: usize = 0;
    proof {
        assert(entries@.take(0) =~= Seq::<(String, ConfigFile)>::empty());
        assert(config_statuses_view(out@) =~= seq![]);
    }
    while i < entries.len()
        invariant
            entries@ == service.configs@,
            i <= entries@.len(),
            configs_status_spec(service_name@, entries@.take(i as int), paths.config@) == Ok::<
                Seq<(Seq<char>, ConfigStatusView)>,
                Seq<char>,
            >(config_statuses_view(out@)),
        decreases entries.len() - i,
    {
        let e = &entries[i];
        assert(entries@.take(i + 1).drop_last() =~= entries@.take(i as int));
        assert(entries@.take(i + 1).last() == entries@[i as int]);
        match config_status(service_name, e.0.as_str(), &e.1, paths) {
            Ok(c) => {
                let ghost prev = out@;
                let ghost cv = (c.kind@, c.path@, opt_str(c.file_name));
                out.push((own(e.0.as_str()), c));
                assert(config_statuses_view(out@) =~= config_statuses_view(prev).push((e.0@, cv)));
            },
            Err(x) => {
                proof {
                    lemma_configs_error_persists(service_name@, entries@, paths.config@, i + 1);
                }
                return Err(x);
            },
        }
        i = i + 1;
    }
    assert(entries@.take(entries@.len() as int) =~= entries@);
    Ok(out)
}

} // verus!
