//! The service-set manifest: services, their commands, configs, runtime
//! layout, systemd settings and dependencies.
use vstd::prelude::*;

use crate::strmap::{has_key, lookup, StrMap};
use crate::text::{cat, cat3, own, str_has_char};

verus! {

/// A service set as described by its manifest.
#[derive(Debug)]
pub struct Manifest {
    pub schema_version: u64,
    pub set_id: String,
    pub name: String,
    pub auto_start: bool,
    pub runtime_shell: String,
    pub runtime: ManifestRuntime,
    pub services: StrMap<Service>,
}

/// One service of the set.
#[derive(Debug)]
pub struct Service {
    pub unit_name: String,
    pub execution: Exec,
    pub configs: StrMap<ConfigFile>,
    pub activation: Activation,
    pub runtime: ServiceRuntime,
    pub systemd: ServiceSystemd,
    pub systemd_args: String,
    pub dependencies: Dependencies,
}

/// A config file: a static path, or a template rendered at start time.
#[derive(Clone, Debug)]
pub struct ConfigFile {
    pub path: Option<String>,
    pub runtime: Option<RuntimeConfig>,
}

/// A config file rendered under the service's runtime config directory.
#[derive(Clone, Debug)]
pub struct RuntimeConfig {
    pub file_name: String,
    pub parts: Vec<RuntimeConfigPart>,
}

/// One piece of a runtime config template.
#[derive(Clone, Debug)]
pub enum RuntimeConfigPart {
    Text(String),
    RuntimePath { runtime_path: String },
    Env { env: String },
}

/// Socket, path and timer activation settings, by systemd option name.
#[derive(Debug)]
pub struct Activation {
    pub socket: StrMap<Vec<String>>,
    pub path: StrMap<Vec<String>>,
    pub timer: StrMap<Vec<String>>,
}

/// Where the set keeps its runtime state, relative to `XDG_RUNTIME_DIR`.
#[derive(Debug)]
pub struct ManifestRuntime {
    pub base: String,
}

/// Runtime state of one service.
#[derive(Debug)]
pub struct ServiceRuntime {
    pub ephemeral: bool,
    pub env: StrMap<String>,
    pub paths: RuntimePaths,
}

/// Systemd settings of one service.
#[derive(Debug)]
pub struct ServiceSystemd {
    pub service_type: Option<String>,
    pub notify_access: Option<String>,
    pub restart: Option<String>,
    pub restart_sec: Option<String>,
    pub timeout_sec: Option<String>,
    pub timeout_start_sec: Option<String>,
    pub timeout_stop_sec: Option<String>,
    pub watchdog_sec: Option<String>,
    pub working_directory: Option<String>,
    pub kill_mode: Option<String>,
    pub remain_after_exit: Option<bool>,
    pub exec_start_pre: Vec<SystemdExecCommand>,
    pub exec_start_post: Vec<SystemdExecCommand>,
    pub exec_reload: Vec<SystemdExecCommand>,
    pub exec_stop: Vec<SystemdExecCommand>,
    pub ignore_start_failure: bool,
}

/// An extra command run by systemd around the main one.
#[derive(Clone, Debug)]
pub enum SystemdExecCommand {
    Structured(SystemdExecCommandSpec),
    String(String),
}

/// A command together with whether its failure is ignored.
#[derive(Clone, Debug)]
pub struct SystemdExecCommandSpec {
    pub command: String,
    pub ignore_failure: bool,
}

/// Runtime directories of a service, relative to the set's runtime root.
#[derive(Debug)]
pub struct RuntimePaths {
    pub base: String,
    pub run: String,
    pub tmp: String,
    pub cache: String,
    pub config: String,
    pub data: String,
    pub home: String,
}

/// Dependency and ordering relations between services, by service name.
#[derive(Debug)]
pub struct Dependencies {
    pub requires: Vec<String>,
    pub wants: Vec<String>,
    pub after: Vec<String>,
    pub before: Vec<String>,
    pub part_of: Vec<String>,
}

/// How a service is run.
#[derive(Debug)]
pub struct Exec {
    pub program: Option<String>,
    pub argv: Vec<ExecArg>,
    pub shell_command: Option<String>,
    pub command: String,
}

/// An argument: a literal string, or the path of a named config.
#[derive(Clone, Debug)]
pub enum ExecArg {
    String(String),
    Config { config: String },
}

/// The message for a service name the manifest does not hold.
pub open spec fn no_service_msg(name: Seq<char>) -> Seq<char> {
    "manifest has no service `"@ + name + "`"@
}

/// Builds `no_service_msg(name)`.
pub fn no_service_error(name: &str) -> (r: String)
    ensures
        r@ == no_service_msg(name@),
{
    cat3("manifest has no service `", name, "`")
}

/// The (name, service) pairs of a map, in order.
pub open spec fn entry_pairs(s: Seq<(String, Service)>) -> Seq<(Seq<char>, Service)> {
    s.map_values(|e: (String, Service)| (e.0@, e.1))
}

/// The view of a list of borrowed (name, service) pairs.
pub open spec fn pair_views(s: Seq<(&str, &Service)>) -> Seq<(Seq<char>, Service)> {
    s.map_values(|e: (&str, &Service)| (e.0@, *e.1))
}

/// `i` is the first index of `names` that the manifest does not hold.
pub open spec fn first_missing(services: Seq<(String, Service)>, names: Seq<String>, i: int) -> bool {
    &&& 0 <= i < names.len()
    &&& !has_key(services, names[i]@)
    &&& forall|j: int| 0 <= j < i ==> has_key(services, #[trigger] names[j]@)
}

/// The services named by `names`, in that order.
pub open spec fn named_pairs(services: Seq<(String, Service)>, names: Seq<String>) -> Seq<
    (Seq<char>, Service),
> {
    names.map_values(|n: String| (n@, lookup(services, n@).unwrap()))
}

/// The path shown for a config file.
pub open spec fn display_path_spec(c: ConfigFile) -> Seq<char> {
    match c.path {
        Some(p) => p@,
        None => match c.runtime {
            Some(rt) => "<runtime:"@ + rt.file_name@ + ">"@,
            None => "<missing>"@,
        },
    }
}

/// The systemd unit name of a service: its unit name, with `.service`
/// appended when it has no suffix of its own.
pub open spec fn unit_name_spec(unit_name: Seq<char>) -> Seq<char> {
    if unit_name.contains('.') {
        unit_name
    } else {
        unit_name + ".service"@
    }
}

/// The command line of a systemd exec command.
pub open spec fn command_spec(c: SystemdExecCommand) -> Seq<char> {
    match c {
        SystemdExecCommand::Structured(s) => s.command@,
        SystemdExecCommand::String(s) => s@,
    }
}

/// Whether the failure of a systemd exec command is ignored.
pub open spec fn ignore_failure_spec(c: SystemdExecCommand) -> bool {
    match c {
        SystemdExecCommand::Structured(s) => s.ignore_failure,
        SystemdExecCommand::String(_) => false,
    }
}

/// The message for an argv entry that names an unknown config.
pub open spec fn missing_config_msg(config: Seq<char>) -> Seq<char> {
    "service argv references missing config `"@ + config + "`"@
}

/// The argv entries after the program, or the first missing config.
pub open spec fn argv_values(args: Seq<ExecArg>, configs: Seq<(String, String)>) -> Result<
    Seq<Seq<char>>,
    Seq<char>,
>
    decreases args.len(),
{
    if args.len() == 0 {
        Ok(seq![])
    } else {
        match argv_values(args.drop_last(), configs) {
            Err(e) => Err(e),
            Ok(vs) => match args.last() {
                ExecArg::String(v) => Ok(vs.push(v@)),
                ExecArg::Config { config } => match lookup(configs, config@) {
                    Some(p) => Ok(vs.push(p@)),
                    None => Err(missing_config_msg(config@)),
                },
            },
        }
    }
}

/// An error in a prefix of the arguments is the error of all of them.
pub proof fn lemma_argv_error_persists(args: Seq<ExecArg>, configs: Seq<(String, String)>, k: int)
    requires
        0 <= k <= args.len(),
        argv_values(args.take(k), configs) is Err,
    ensures
        argv_values(args, configs) == argv_values(args.take(k), configs),
    decreases args.len(),
{
    if k == args.len() {
        assert(args.take(k) =~= args);
    } else {
        assert(args.drop_last().take(k) =~= args.take(k));
        lemma_argv_error_persists(args.drop_last(), configs, k);
    }
}

/// What `Exec::systemd_argv` gives: the program and its full argv.
pub open spec fn systemd_argv_spec(
    exec: Exec,
    runtime_shell: Seq<char>,
    configs: Seq<(String, String)>,
) -> Result<(Seq<char>, Seq<Seq<char>>), Seq<char>> {
    match exec.shell_command {
        Some(sc) => Ok((runtime_shell, seq![runtime_shell, "-lc"@, sc@])),
        None => match exec.program {
            None => Err("service exec is missing `program`"@),
            Some(p) => match argv_values(exec.argv@, configs) {
                Err(e) => Err(e),
                Ok(vs) => Ok((p@, seq![p@] + vs)),
            },
        },
    }
}

/// The views of a list of strings.
pub open spec fn string_views(v: Seq<String>) -> Seq<Seq<char>> {
    v.map_values(|s: String| s@)
}

impl Manifest {
    /// The services named by `names`, in that order; all services, in name
    /// order, when `names` is empty.
    pub fn selected_services<'a>(&'a self, names: &[String]) -> (r: Result<
        Vec<(&'a str, &'a Service)>,
        String,
    >)
        ensures
            names@.len() == 0 ==> (r matches Ok(v) && pair_views(v@) == entry_pairs(
                self.services@,
            )),
            names@.len() > 0 ==> (r is Err <==> exists|i: int|
                first_missing(self.services@, names@, i)),
            r matches Err(e) ==> exists|i: int|
                first_missing(self.services@, names@, i) && e@ == no_service_msg(names@[i]@),
            names@.len() > 0 ==> (r matches Ok(v) ==> pair_views(v@) == named_pairs(
                self.services@,
                names@,
            )),
    {
        let entries = self.services.entries();
        let mut out: Vec<(&'a str, &'a Service)> = Vec::new();
        if names.len() == 0 {
            let mut i: usize = 0;
            while i < entries.len()
                invariant
                    entries@ == self.services@,
                    i <= entries@.len(),
                    pair_views(out@) == entry_pairs(entries@).take(i as int),
                decreases entries.len() - i,
            {
                let e = &entries[i];
                out.push((e.0.as_str(), &e.1));
                assert(entry_pairs(entries@).take(i + 1) =~= entry_pairs(entries@).take(
                    i as int,
                ).push((e.0@, e.1)));
                assert(pair_views(out@) =~= pair_views(out@.drop_last()).push((e.0@, e.1)));
                i = i + 1;
            }
            assert(entry_pairs(entries@).take(entries@.len() as int) =~= entry_pairs(entries@));
            return Ok(out);
        }
        let mut i: usize = 0;
        while i < names.len()
            invariant
                entries@ == self.services@,
                i <= names@.len(),
                forall|j: int| 0 <= j < i ==> has_key(self.services@, #[trigger] names@[j]@),
                pair_views(out@) == named_pairs(self.services@, names@.take(i as int)),
            decreases names.len() - i,
        {
            match self.services.find(names[i].as_str()) {
                Some(k) => {
                    let e = &entries[k];
                    out.push((e.0.as_str(), &e.1));
                    proof {
                        crate::strmap::lemma_lookup_at(self.services@, k as int);
                        assert(named_pairs(self.services@, names@.take(i + 1)) =~= named_pairs(
                            self.services@,
                            names@.take(i as int),
                        ).push((names@[i as int]@, e.1)));
                        assert(pair_views(out@) =~= pair_views(out@.drop_last()).push(
                            (e.0@, e.1),
                        ));
                    }
                },
                None => {
                    proof {
                        assert(first_missing(self.services@, names@, i as int));
                    }
                    return Err(no_service_error(names[i].as_str()));
                },
            }
            i = i + 1;
        }
        proof {
            assert(names@.take(names@.len() as int) =~= names@);
        }
        Ok(out)
    }
}

impl ConfigFile {
    /// The path shown for this config: its static path, a placeholder
    /// naming its runtime file, or `<missing>`.
    pub fn display_path(&self) -> (r: String)
        ensures
            r@ == display_path_spec(*self),
    {
        match &self.path {
            Some(p) => own(p.as_str()),
            None => match &self.runtime {
                Some(rt) => cat3("<runtime:", rt.file_name.as_str(), ">"),
                None => own("<missing>"),
            },
        }
    }
}

impl Service {
    /// The systemd unit of this service.
    pub fn systemd_unit_name(&self) -> (r: String)
        ensures
            r@ == unit_name_spec(self.unit_name@),
    {
        if str_has_char(self.unit_name.as_str(), '.') {
            own(self.unit_name.as_str())
        } else {
            cat(self.unit_name.as_str(), ".service")
        }
    }
}

impl SystemdExecCommand {
    /// The command line.
    pub fn command(&self) -> (r: &str)
        ensures
            r@ == command_spec(*self),
    {
        match self {
            SystemdExecCommand::Structured(c) => c.command.as_str(),
            SystemdExecCommand::String(c) => c.as_str(),
        }
    }

    /// Whether systemd ignores the failure of this command.
    pub fn ignore_failure(&self) -> (r: bool)
        ensures
            r == ignore_failure_spec(*self),
    {
        match self {
            SystemdExecCommand::Structured(c) => c.ignore_failure,
            SystemdExecCommand::String(_) => false,
        }
    }
}

/// The default of `ServiceRuntime::ephemeral`.
pub fn default_ephemeral() -> (r: bool)
    ensures
        r,
{
    true
}

impl Default for ManifestRuntime {
    /// The runtime base of a set whose manifest gives none.
    fn default() -> (r: Self)
        ensures
            r.base@ == "ides/unknown"@,
    {
        ManifestRuntime { base: own("ides/unknown") }
    }
}

impl Default for RuntimePaths {
    /// No runtime paths.
    fn default() -> (r: Self)
        ensures
            r.base@.len() == 0 && r.run@.len() == 0 && r.tmp@.len() == 0 && r.cache@.len() == 0
                && r.config@.len() == 0 && r.data@.len() == 0 && r.home@.len() == 0,
    {
        RuntimePaths {
            base: String::new(),
            run: String::new(),
            tmp: String::new(),
            cache: String::new(),
            config: String::new(),
            data: String::new(),
            home: String::new(),
        }
    }
}

impl Default for ServiceRuntime {
    /// An ephemeral runtime with no environment and no paths.
    fn default() -> (r: Self)
        ensures
            r.ephemeral,
            r.env@.len() == 0,
            r.paths.base@.len() == 0 && r.paths.run@.len() == 0 && r.paths.tmp@.len() == 0
                && r.paths.cache@.len() == 0 && r.paths.config@.len() == 0 && r.paths.data@.len() == 0
                && r.paths.home@.len() == 0,
    {
        ServiceRuntime { ephemeral: default_ephemeral(), env: StrMap::new(), paths: RuntimePaths::default() }
    }
}

impl Default for Activation {
    /// No activation options.
    fn default() -> (r: Self)
        ensures
            r.socket@.len() == 0 && r.path@.len() == 0 && r.timer@.len() == 0,
    {
        Activation { socket: StrMap::new(), path: StrMap::new(), timer: StrMap::new() }
    }
}

impl Default for Dependencies {
    /// No dependencies.
    fn default() -> (r: Self)
        ensures
            r.requires@.len() == 0 && r.wants@.len() == 0 && r.after@.len() == 0 && r.before@.len() == 0
                && r.part_of@.len() == 0,
    {
        Dependencies {
            requires: Vec::new(),
            wants: Vec::new(),
            after: Vec::new(),
            before: Vec::new(),
            part_of: Vec::new(),
        }
    }
}

impl Default for ServiceSystemd {
    /// No systemd settings.
    fn default() -> (r: Self)
        ensures
            r.service_type is None && r.notify_access is None && r.restart is None && r.restart_sec is None
                && r.timeout_sec is None && r.timeout_start_sec is None && r.timeout_stop_sec is None
                && r.watchdog_sec is None && r.working_directory is None && r.kill_mode is None
                && r.remain_after_exit is None && r.exec_start_pre@.len() == 0 && r.exec_start_post@.len() == 0
                && r.exec_reload@.len() == 0 && r.exec_stop@.len() == 0 && !r.ignore_start_failure,
    {
        ServiceSystemd {
            service_type: None,
            notify_access: None,
            restart: None,
            restart_sec: None,
            timeout_sec: None,
            timeout_start_sec: None,
            timeout_stop_sec: None,
            watchdog_sec: None,
            working_directory: None,
            kill_mode: None,
            remain_after_exit: None,
            exec_start_pre: Vec::new(),
            exec_start_post: Vec::new(),
            exec_reload: Vec::new(),
            exec_stop: Vec::new(),
            ignore_start_failure: false,
        }
    }
}

impl Exec {
    /// The command shown for this service: the shell command if any, else
    /// the plain command.
    pub fn display_command(&self) -> (r: String)
        ensures
            r@ == match self.shell_command {
                Some(sc) => sc@,
                None => self.command@,
            },
    {
        match &self.shell_command {
            Some(sc) => own(sc.as_str()),
            None => own(self.command.as_str()),
        }
    }

    /// The program systemd runs and its argv. A shell command runs as
    /// `<shell> -lc <command>`; otherwise the program runs with its argv,
    /// each config reference replaced by the config's path.
    pub fn systemd_argv(&self, runtime_shell: &str, configs: &StrMap<String>) -> (r: Result<
        (String, Vec<String>),
        String,
    >)
        ensures
            r matches Ok((p, v)) ==> systemd_argv_spec(*self, runtime_shell@, configs@) == Ok::<
                (Seq<char>, Seq<Seq<char>>),
                Seq<char>,
            >((p@, string_views(v@))),
            r matches Err(e) ==> systemd_argv_spec(*self, runtime_shell@, configs@) == Err::<
                (Seq<char>, Seq<Seq<char>>),
                Seq<char>,
            >(e@),
    {
        if let Some(sc) = &self.shell_command {
            let mut v: Vec<String> = Vec::new();
            v.push(own(runtime_shell));
            v.push(own("-lc"));
            v.push(own(sc.as_str()));
            assert(string_views(v@) =~= seq![runtime_shell@, "-lc"@, sc@]);
            return Ok((own(runtime_shell), v));
        }
        let program = match &self.program {
            Some(p) => p,
            None => {
                return Err(own("service exec is missing `program`"));
            },
        };
        let mut argv: Vec<String> = Vec::new();
        argv.push(own(program.as_str()));
        let mut i: usize = 0;
        proof {
            assert(self.argv@.take(0) =~= Seq::<ExecArg>::empty());
            assert(string_views(argv@) =~= seq![program@] + seq![]);
        }
        while i < self.argv.len()
            invariant
                i <= self.argv@.len(),
                self.shell_command is None,
                self.program == Some(*program),
                argv_values(self.argv@.take(i as int), configs@) matches Ok(vs) && string_views(
                    argv@,
                ) == seq![program@] + vs,
            decreases self.argv.len() - i,
        {
            let ghost prev = argv@;
            assert(self.argv@.take(i + 1).drop_last() =~= self.argv@.take(i as int));
            match &self.argv[i] {
                ExecArg::String(value) => {
                    argv.push(own(value.as_str()));
                },
                ExecArg::Config { config } => {
                    match configs.get(config.as_str()) {
                        Some(path) => {
                            argv.push(own(path.as_str()));
                        },
                        None => {
                            proof {
                                lemma_argv_error_persists(self.argv@, configs@, i + 1);
                            }
                            return Err(cat3(
                                "service argv references missing config `",
                                config.as_str(),
                                "`",
                            ));
                        },
                    }
                },
            }
            assert(string_views(argv@) =~= string_views(prev).push(argv@.last()@));
            i = i + 1;
        }
        assert(self.argv@.take(self.argv@.len() as int) =~= self.argv@);
        Ok((own(program.as_str()), argv))
    }
}

} // verus!
