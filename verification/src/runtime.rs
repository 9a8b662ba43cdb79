//! Runtime directories of a service set under `XDG_RUNTIME_DIR`: the set's
//! root, each service's base and the directories under it, the environment
//! a service sees, and the config files rendered for it.
use vstd::prelude::*;

use crate::leases::opt_view;
use crate::manifest::{ConfigFile, Manifest, RuntimeConfig, RuntimeConfigPart, RuntimePaths, Service};
use crate::path::{
    all_normal, components, is_safe_relative_path, join, lemma_join_components,
    lemma_join_stays_under, path_join, path_starts_with, safe_relative, starts_with,
};
use crate::strmap::{has_key, key_index, keys_sorted, lemma_lookup_at, lookup, views, StrMap};
use crate::text::{cat5, opt_str, own, str_result};

verus! {

/// The message when `XDG_RUNTIME_DIR` is not set.
pub open spec fn no_xdg_msg() -> Seq<char> {
    "XDG_RUNTIME_DIR must be set to use ides runtime paths"@
}

/// The message for a manifest runtime base that could leave
/// `XDG_RUNTIME_DIR`.
pub open spec fn unsafe_base_msg() -> Seq<char> {
    "manifest runtime base must be relative and contain only normal path components"@
}

/// The runtime root of a set: its base under `XDG_RUNTIME_DIR`.
pub open spec fn runtime_root_spec(base: Seq<char>, xdg: Option<Seq<char>>) -> Result<Seq<char>, Seq<char>> {
    match xdg {
        None => Err(no_xdg_msg()),
        Some(x) => if safe_relative(base) {
            Ok(join(x, base))
        } else {
            Err(unsafe_base_msg())
        },
    }
}

/// The runtime root of the set, given the value of `XDG_RUNTIME_DIR`.
pub fn runtime_root(manifest: &Manifest, xdg_runtime_dir: Option<&str>) -> (r: Result<String, String>)
    ensures
        str_result(r) == runtime_root_spec(manifest.runtime.base@, opt_view(xdg_runtime_dir)),
{
    let x = match xdg_runtime_dir {
        Some(x) => x,
        None => {
            return Err(own("XDG_RUNTIME_DIR must be set to use ides runtime paths"));
        },
    };
    if !is_safe_relative_path(manifest.runtime.base.as_str()) {
        return Err(own("manifest runtime base must be relative and contain only normal path components"));
    }
    Ok(path_join(x, manifest.runtime.base.as_str()))
}

/// The message for a runtime path left empty.
pub open spec fn no_path_msg(service: Seq<char>, name: Seq<char>) -> Seq<char> {
    "service `"@ + service + "` has no runtime path configured for `"@ + name + "`"@
}

/// The message for a runtime path that could leave the runtime root.
pub open spec fn unsafe_path_msg(service: Seq<char>, name: Seq<char>) -> Seq<char> {
    "service `"@ + service + "` runtime path `"@ + name
        + "` must be relative and contain only normal path components"@
}

/// The message for a runtime path outside the service's base.
pub open spec fn escape_msg(service: Seq<char>, name: Seq<char>) -> Seq<char> {
    "service `"@ + service + "` runtime path `"@ + name + "` must stay under its base runtime path"@
}

/// The runtime path `name` of `service`: `relative` under the root.
pub open spec fn runtime_path_spec(
    root: Seq<char>,
    service: Seq<char>,
    name: Seq<char>,
    relative: Seq<char>,
) -> Result<Seq<char>, Seq<char>> {
    if relative.len() == 0 {
        Err(no_path_msg(service, name))
    } else if !safe_relative(relative) {
        Err(unsafe_path_msg(service, name))
    } else {
        Ok(join(root, relative))
    }
}

/// The runtime path `name` of `service`, which must lie under `base`.
pub open spec fn under_base_spec(
    root: Seq<char>,
    base: Seq<char>,
    service: Seq<char>,
    name: Seq<char>,
    relative: Seq<char>,
) -> Result<Seq<char>, Seq<char>> {
    match runtime_path_spec(root, service, name, relative) {
        Err(e) => Err(e),
        Ok(p) => if path_starts_with(p, base) {
            Ok(p)
        } else {
            Err(escape_msg(service, name))
        },
    }
}

/// `relative` under `root`; refused when empty or when it could leave the
/// root.
pub fn runtime_path(root: &str, service: &str, name: &str, relative: &str) -> (r: Result<String, String>)
    ensures
        str_result(r) == runtime_path_spec(root@, service@, name@, relative@),
{
    if relative.unicode_len() == 0 {
        return Err(cat5("service `", service, "` has no runtime path configured for `", name, "`"));
    }
    if !is_safe_relative_path(relative) {
        return Err(cat5(
            "service `",
            service,
            "` runtime path `",
            name,
            "` must be relative and contain only normal path components",
        ));
    }
    Ok(path_join(root, relative))
}

/// `relative` under `root`, which must also lie under `base`.
pub fn runtime_path_under_base(
    root: &str,
    base: &str,
    service: &str,
    name: &str,
    relative: &str,
) -> (r: Result<String, String>)
    ensures
        str_result(r) == under_base_spec(root@, base@, service@, name@, relative@),
{
    let path = runtime_path(root, service, name, relative)?;
    if !starts_with(path.as_str(), base) {
        return Err(cat5(
            "service `",
            service,
            "` runtime path `",
            name,
            "` must stay under its base runtime path",
        ));
    }
    Ok(path)
}

/// The runtime directories of a service, in the order base, run, tmp,
/// cache, config, data, home.
pub struct RuntimePathSet {
    pub base: String,
    pub run: String,
    pub tmp: String,
    pub cache: String,
    pub config: String,
    pub data: String,
    pub home: String,
}

impl View for RuntimePathSet {
    type V = Seq<Seq<char>>;

    open spec fn view(&self) -> Seq<Seq<char>> {
        seq![self.base@, self.run@, self.tmp@, self.cache@, self.config@, self.data@, self.home@]
    }
}

/// The directories under the base, with their names, in order.
pub open spec fn path_items(p: RuntimePaths) -> Seq<(Seq<char>, Seq<char>)> {
    seq![
        ("run"@, p.run@),
        ("tmp"@, p.tmp@),
        ("cache"@, p.cache@),
        ("config"@, p.config@),
        ("data"@, p.data@),
        ("home"@, p.home@),
    ]
}

/// Each item's path under `root` and `base`, or the first error.
pub open spec fn under_all(
    root: Seq<char>,
    base: Seq<char>,
    service: Seq<char>,
    items: Seq<(Seq<char>, Seq<char>)>,
) -> Result<Seq<Seq<char>>, Seq<char>>
    decreases items.len(),
{
    if items.len() == 0 {
        Ok(seq![])
    } else {
        match under_base_spec(root, base, service, items[0].0, items[0].1) {
            Err(e) => Err(e),
            Ok(p) => match under_all(root, base, service, items.drop_first()) {
                Err(e) => Err(e),
                Ok(ps) => Ok(seq![p] + ps),
            },
        }
    }
}

/// When the items before `k` all succeed and item `k` fails, `under_all`
/// fails with item `k`'s error.
proof fn lemma_under_all_first_error(
    root: Seq<char>,
    base: Seq<char>,
    service: Seq<char>,
    items: Seq<(Seq<char>, Seq<char>)>,
    k: int,
)
    requires
        0 <= k < items.len(),
        forall|j: int| 0 <= j < k ==> (#[trigger] under_base_spec(root, base, service, items[j].0, items[j].1)) is Ok,
        under_base_spec(root, base, service, items[k].0, items[k].1) is Err,
    ensures
        under_all(root, base, service, items) == Err::<Seq<Seq<char>>, Seq<char>>(
            under_base_spec(root, base, service, items[k].0, items[k].1)->Err_0,
        ),
    decreases k,
{
    if k > 0 {
        let rest = items.drop_first();
        assert forall|j: int| 0 <= j < k - 1 implies (#[trigger] under_base_spec(root, base, service, rest[j].0, rest[j].1)) is Ok by {
            assert(rest[j] == items[j + 1]);
        }
        assert(rest[k - 1] == items[k]);
        lemma_under_all_first_error(root, base, service, rest, k - 1);
        assert(under_base_spec(root, base, service, items[0].0, items[0].1) is Ok);
    }
}

/// What a successful `under_all` holds: each item's relative path is safe
/// and joined to the root, and lies under the base.
proof fn lemma_under_all_ok(
    root: Seq<char>,
    base: Seq<char>,
    service: Seq<char>,
    items: Seq<(Seq<char>, Seq<char>)>,
)
    requires
        under_all(root, base, service, items) is Ok,
    ensures
        ({
            let ps = under_all(root, base, service, items)->Ok_0;
            &&& ps.len() == items.len()
            &&& forall|i: int| 0 <= i < ps.len() ==> safe_relative(#[trigger] items[i].1) && ps[i]
                == join(root, items[i].1) && path_starts_with(ps[i], base)
        }),
    decreases items.len(),
{
    if items.len() > 0 {
        let rest = items.drop_first();
        lemma_under_all_ok(root, base, service, rest);
        let ps = under_all(root, base, service, items)->Ok_0;
        let tail = under_all(root, base, service, rest)->Ok_0;
        assert forall|i: int| 0 <= i < ps.len() implies safe_relative(#[trigger] items[i].1) && ps[i]
            == join(root, items[i].1) && path_starts_with(ps[i], base) by {
            if i > 0 {
                assert(ps[i] == tail[i - 1]);
                assert(rest[i - 1] == items[i]);
            }
        }
    }
}

/// A path joined from `a` and a safe relative path keeps `a`'s components
/// first, and adds plain names only.
proof fn lemma_join_extends(a: Seq<char>, b: Seq<char>)
    requires
        safe_relative(b),
    ensures
        components(join(a, b)) == components(a) + components(b),
        all_normal(components(b)),
{
    lemma_join_components(a, b);
}

/// Law: every runtime directory of a service lies under the set's runtime
/// root and so under `XDG_RUNTIME_DIR`, with plain names only below it; the
/// directories other than the base lie under the base.
pub proof fn lemma_runtime_paths_stay_under(
    runtime_base: Seq<char>,
    name: Seq<char>,
    paths: RuntimePaths,
    xdg: Seq<char>,
)
    requires
        runtime_paths_spec(runtime_base, name, paths, Some(xdg)) is Ok,
    ensures
        ({
            let ps = runtime_paths_spec(runtime_base, name, paths, Some(xdg))->Ok_0;
            let root = join(xdg, runtime_base);
            &&& ps.len() == 7
            &&& forall|i: int| 0 <= i < 7 ==> path_starts_with(#[trigger] ps[i], root)
            &&& forall|i: int| 0 <= i < 7 ==> path_starts_with(#[trigger] ps[i], xdg) && all_normal(
                components(ps[i]).skip(components(xdg).len() as int),
            )
            &&& forall|i: int| 1 <= i < 7 ==> path_starts_with(#[trigger] ps[i], ps[0])
        }),
{
    let root = join(xdg, runtime_base);
    let b = join(root, paths.base@);
    let items = path_items(paths);
    lemma_join_extends(xdg, runtime_base);
    lemma_join_extends(root, paths.base@);
    lemma_under_all_ok(root, b, name, items);
    let ps = runtime_paths_spec(runtime_base, name, paths, Some(xdg))->Ok_0;
    let tail = under_all(root, b, name, items)->Ok_0;
    let cx = components(xdg);
    let cr = components(root);
    assert forall|i: int| 0 <= i < 7 implies path_starts_with(#[trigger] ps[i], root) && path_starts_with(
        ps[i],
        xdg,
    ) && all_normal(components(ps[i]).skip(cx.len() as int)) by {
        let rel = if i == 0 {
            paths.base@
        } else {
            items[i - 1].1
        };
        if i > 0 {
            assert(ps[i] == tail[i - 1]);
        }
        assert(ps[i] == join(root, rel));
        lemma_join_extends(root, rel);
        let cp = components(ps[i]);
        assert(cp.take(cr.len() as int) =~= cr);
        assert(cp.take(cx.len() as int) =~= cx);
        assert(cp.skip(cx.len() as int) =~= components(runtime_base) + components(rel));
    }
    assert(ps[0] == b);
    assert forall|i: int| 1 <= i < 7 implies path_starts_with(#[trigger] ps[i], ps[0]) by {
        assert(ps[i] == tail[i - 1]);
        assert(safe_relative(items[i - 1].1));
    }
}

/// The runtime directories of service `name`, base first.
pub open spec fn runtime_paths_spec(
    runtime_base: Seq<char>,
    name: Seq<char>,
    paths: RuntimePaths,
    xdg: Option<Seq<char>>,
) -> Result<Seq<Seq<char>>, Seq<char>> {
    match runtime_root_spec(runtime_base, xdg) {
        Err(e) => Err(e),
        Ok(root) => match runtime_path_spec(root, name, "base"@, paths.base@) {
            Err(e) => Err(e),
            Ok(b) => match under_all(root, b, name, path_items(paths)) {
                Err(e) => Err(e),
                Ok(ps) => Ok(seq![b] + ps),
            },
        },
    }
}

/// The runtime directories of service `name`: its base under the set's
/// root, and the others under that base.
pub fn runtime_paths(
    manifest: &Manifest,
    name: &str,
    service: &Service,
    xdg_runtime_dir: Option<&str>,
) -> (r: Result<RuntimePathSet, String>)
    ensures
        r matches Ok(s) ==> runtime_paths_spec(
            manifest.runtime.base@,
            name@,
            service.runtime.paths,
            opt_view(xdg_runtime_dir),
        ) == Ok::<Seq<Seq<char>>, Seq<char>>(s@),
        r matches Err(e) ==> runtime_paths_spec(
            manifest.runtime.base@,
            name@,
            service.runtime.paths,
            opt_view(xdg_runtime_dir),
        ) == Err::<Seq<Seq<char>>, Seq<char>>(e@),
{
    let root = runtime_root(manifest, xdg_runtime_dir)?;
    let p = &service.runtime.paths;
    let base = runtime_path(root.as_str(), name, "base", p.base.as_str())?;
    let r = root.as_str();
    let b = base.as_str();
    let ghost items = path_items(service.runtime.paths);
    let run = match runtime_path_under_base(r, b, name, "run", p.run.as_str()) {
        Ok(v) => v,
        Err(e) => {
            proof {
                lemma_under_all_first_error(root@, base@, name@, items, 0);
            }
            return Err(e);
        },
    };
    let tmp = match runtime_path_under_base(r, b, name, "tmp", p.tmp.as_str()) {
        Ok(v) => v,
        Err(e) => {
            proof {
                lemma_under_all_first_error(root@, base@, name@, items, 1);
            }
            return Err(e);
        },
    };
    let cache = match runtime_path_under_base(r, b, name, "cache", p.cache.as_str()) {
        Ok(v) => v,
        Err(e) => {
            proof {
                lemma_under_all_first_error(root@, base@, name@, items, 2);
            }
            return Err(e);
        },
    };
    let config = match runtime_path_under_base(r, b, name, "config", p.config.as_str()) {
        Ok(v) => v,
        Err(e) => {
            proof {
                lemma_under_all_first_error(root@, base@, name@, items, 3);
            }
            return Err(e);
        },
    };
    let data = match runtime_path_under_base(r, b, name, "data", p.data.as_str()) {
        Ok(v) => v,
        Err(e) => {
            proof {
                lemma_under_all_first_error(root@, base@, name@, items, 4);
            }
            return Err(e);
        },
    };
    let home = match runtime_path_under_base(r, b, name, "home", p.home.as_str()) {
        Ok(v) => v,
        Err(e) => {
            proof {
                lemma_under_all_first_error(root@, base@, name@, items, 5);
            }
            return Err(e);
        },
    };
    let s = RuntimePathSet { base, run, tmp, cache, config, data, home };
    proof {
        let rv = root@;
        let bv = s.base@;
        let nv = name@;
        assert(items.skip(6) =~= Seq::<(Seq<char>, Seq<char>)>::empty());
        assert(items.skip(5).drop_first() =~= items.skip(6));
        assert(items.skip(4).drop_first() =~= items.skip(5));
        assert(items.skip(3).drop_first() =~= items.skip(4));
        assert(items.skip(2).drop_first() =~= items.skip(3));
        assert(items.skip(1).drop_first() =~= items.skip(2));
        assert(items.drop_first() =~= items.skip(1));
        assert(under_all(rv, bv, nv, items.skip(6)) == Ok::<Seq<Seq<char>>, Seq<char>>(seq![]));
        assert(under_all(rv, bv, nv, items.skip(5)) == Ok::<Seq<Seq<char>>, Seq<char>>(seq![home@]));
        assert(under_all(rv, bv, nv, items.skip(4)) == Ok::<Seq<Seq<char>>, Seq<char>>(seq![data@] + seq![home@]));
        assert(under_all(rv, bv, nv, items.skip(3)) == Ok::<Seq<Seq<char>>, Seq<char>>(seq![config@] + (seq![data@] + seq![home@])));
        assert(under_all(rv, bv, nv, items.skip(2)) == Ok::<Seq<Seq<char>>, Seq<char>>(seq![cache@] + (seq![config@] + (seq![data@] + seq![home@]))));
        assert(under_all(rv, bv, nv, items.skip(1)) == Ok::<Seq<Seq<char>>, Seq<char>>(seq![tmp@] + (seq![cache@] + (seq![config@] + (seq![data@] + seq![home@])))));
        assert(under_all(rv, bv, nv, items) == Ok::<Seq<Seq<char>>, Seq<char>>(seq![run@] + (seq![tmp@] + (seq![cache@] + (seq![config@] + (seq![data@] + seq![home@]))))));
        assert(s@ =~= seq![bv] + (seq![run@] + (seq![tmp@] + (seq![cache@] + (seq![config@] + (seq![data@] + seq![home@]))))));
    }
    Ok(s)
}

} // verus!

verus! {

/// The position of runtime directory `name` in a path set, if it names one.
pub open spec fn path_index(name: Seq<char>) -> Option<int> {
    if name == "base"@ {
        Some(0)
    } else if name == "run"@ {
        Some(1)
    } else if name == "tmp"@ {
        Some(2)
    } else if name == "cache"@ {
        Some(3)
    } else if name == "config"@ {
        Some(4)
    } else if name == "data"@ {
        Some(5)
    } else if name == "home"@ {
        Some(6)
    } else {
        None
    }
}

/// The message for a template naming no runtime directory.
pub open spec fn unknown_path_msg(service: Seq<char>, name: Seq<char>) -> Seq<char> {
    "service `"@ + service + "` references unknown runtime path `"@ + name + "`"@
}

impl RuntimePathSet {
    /// All seven directories, base first.
    pub fn all(&self) -> (r: Vec<String>)
        ensures
            views(r@) == self@,
    {
        let mut v: Vec<String> = Vec::new();
        v.push(own(self.base.as_str()));
        v.push(own(self.run.as_str()));
        v.push(own(self.tmp.as_str()));
        v.push(own(self.cache.as_str()));
        v.push(own(self.config.as_str()));
        v.push(own(self.data.as_str()));
        v.push(own(self.home.as_str()));
        assert(views(v@) =~= self@);
        v
    }

    /// The directory called `name`.
    pub fn by_name(&self, service: &str, name: &str) -> (r: Result<&str, String>)
        ensures
            match path_index(name@) {
                Some(i) => r matches Ok(p) && p@ == self@[i],
                None => r matches Err(e) && e@ == unknown_path_msg(service@, name@),
            },
    {
        if crate::text::str_eq(name, "base") {
            Ok(self.base.as_str())
        } else if crate::text::str_eq(name, "run") {
            Ok(self.run.as_str())
        } else if crate::text::str_eq(name, "tmp") {
            Ok(self.tmp.as_str())
        } else if crate::text::str_eq(name, "cache") {
            Ok(self.cache.as_str())
        } else if crate::text::str_eq(name, "config") {
            Ok(self.config.as_str())
        } else if crate::text::str_eq(name, "data") {
            Ok(self.data.as_str())
        } else if crate::text::str_eq(name, "home") {
            Ok(self.home.as_str())
        } else {
            Err(cat5("service `", service, "` references unknown runtime path `", name, "`"))
        }
    }
}

/// The variable a runtime directory is given in, before the service's own
/// environment is applied.
pub open spec fn default_env(p: Seq<Seq<char>>, k: Seq<char>) -> Option<Seq<char>> {
    if k == "IDES_RUNTIME_DIR"@ {
        Some(p[0])
    } else if k == "HOME"@ {
        Some(p[6])
    } else if k == "XDG_DATA_HOME"@ {
        Some(p[5])
    } else if k == "XDG_CONFIG_HOME"@ {
        Some(p[4])
    } else if k == "XDG_CACHE_HOME"@ {
        Some(p[3])
    } else if k == "XDG_RUNTIME_DIR"@ {
        Some(p[1])
    } else if k == "TMPDIR"@ {
        Some(p[2])
    } else {
        None
    }
}

/// Each runtime directory in its variable.
fn default_environment(paths: &RuntimePathSet) -> (r: StrMap<String>)
    ensures
        forall|k: Seq<char>| #[trigger] opt_str(lookup(r@, k)) == default_env(paths@, k),
{
    let mut m: StrMap<String> = StrMap::new();
    m.insert(own("TMPDIR"), own(paths.tmp.as_str()));
    m.insert(own("XDG_RUNTIME_DIR"), own(paths.run.as_str()));
    m.insert(own("XDG_CACHE_HOME"), own(paths.cache.as_str()));
    m.insert(own("XDG_CONFIG_HOME"), own(paths.config.as_str()));
    m.insert(own("XDG_DATA_HOME"), own(paths.data.as_str()));
    m.insert(own("HOME"), own(paths.home.as_str()));
    m.insert(own("IDES_RUNTIME_DIR"), own(paths.base.as_str()));
    m
}

/// The value of variable `k` a service sees: its own setting, else the
/// runtime directory given in that variable.
pub open spec fn env_value(p: Seq<Seq<char>>, env: Seq<(String, String)>, k: Seq<char>) -> Option<Seq<char>> {
    if has_key(env, k) {
        opt_str(lookup(env, k))
    } else {
        default_env(p, k)
    }
}

/// Law: where the service does not set it, each of the standard variables
/// names its own runtime directory: `XDG_CACHE_HOME` the cache,
/// `XDG_DATA_HOME` the data, `XDG_CONFIG_HOME` the config,
/// `XDG_RUNTIME_DIR` the run and `TMPDIR` the tmp directory, `HOME` the
/// home and `IDES_RUNTIME_DIR` the base; where the service sets one, its
/// own value wins.
pub proof fn lemma_runtime_dirs_in_env(paths: RuntimePathSet, env: Seq<(String, String)>, k: Seq<char>)
    ensures
        !has_key(env, "XDG_CACHE_HOME"@) ==> env_value(paths@, env, "XDG_CACHE_HOME"@) == Some(paths.cache@),
        !has_key(env, "XDG_DATA_HOME"@) ==> env_value(paths@, env, "XDG_DATA_HOME"@) == Some(paths.data@),
        !has_key(env, "XDG_CONFIG_HOME"@) ==> env_value(paths@, env, "XDG_CONFIG_HOME"@) == Some(paths.config@),
        !has_key(env, "XDG_RUNTIME_DIR"@) ==> env_value(paths@, env, "XDG_RUNTIME_DIR"@) == Some(paths.run@),
        !has_key(env, "TMPDIR"@) ==> env_value(paths@, env, "TMPDIR"@) == Some(paths.tmp@),
        !has_key(env, "HOME"@) ==> env_value(paths@, env, "HOME"@) == Some(paths.home@),
        !has_key(env, "IDES_RUNTIME_DIR"@) ==> env_value(paths@, env, "IDES_RUNTIME_DIR"@) == Some(paths.base@),
        has_key(env, k) ==> env_value(paths@, env, k) == opt_str(lookup(env, k)),
{
    reveal_strlit("IDES_RUNTIME_DIR");
    reveal_strlit("HOME");
    reveal_strlit("XDG_DATA_HOME");
    reveal_strlit("XDG_CONFIG_HOME");
    reveal_strlit("XDG_CACHE_HOME");
    reveal_strlit("XDG_RUNTIME_DIR");
    reveal_strlit("TMPDIR");
    assert("IDES_RUNTIME_DIR"@.len() == 16);
    assert("HOME"@.len() == 4);
    assert("XDG_DATA_HOME"@.len() == 13);
    assert("XDG_CONFIG_HOME"@.len() == 15);
    assert("XDG_CACHE_HOME"@.len() == 14);
    assert("XDG_RUNTIME_DIR"@.len() == 15);
    assert("TMPDIR"@.len() == 6);
    assert("XDG_CONFIG_HOME"@[4] != "XDG_RUNTIME_DIR"@[4]);
    assert("XDG_CONFIG_HOME"@ != "XDG_RUNTIME_DIR"@);
}

/// After adding the first `i` entries of a sorted map, the lookup of `k`
/// gives the entry among them, if any.
proof fn lemma_prefix_lookup(env: Seq<(String, String)>, i: int, k: Seq<char>)
    requires
        keys_sorted(env),
        0 <= i < env.len(),
    ensures
        has_key(env.take(i + 1), k) == (has_key(env.take(i), k) || k == env[i].0@),
        lookup(env.take(i + 1), k) == if k == env[i].0@ {
            Some(env[i].1)
        } else {
            lookup(env.take(i), k)
        },
        has_key(env.take(env.len() as int), k) == has_key(env, k),
        lookup(env.take(env.len() as int), k) == lookup(env, k),
{
    let a = env.take(i);
    let b = env.take(i + 1);
    assert(env.take(env.len() as int) =~= env);
    assert(keys_sorted(b));
    assert(keys_sorted(a));
    assert(b[i] == env[i]);
    lemma_lookup_at(b, i);
    if has_key(b, k) && k != env[i].0@ {
        let m = key_index(b, k);
        assert(m != i);
        assert(a[m] == b[m]);
        assert(has_key(a, k));
    }
    if has_key(a, k) {
        let j = key_index(a, k);
        assert(b[j] == a[j]);
        lemma_lookup_at(a, j);
        lemma_lookup_at(b, j);
    }
}

/// The environment of a service: each runtime directory in its variable,
/// then the service's own settings, which win.
pub fn runtime_environment_values(paths: &RuntimePathSet, service: &Service) -> (r: StrMap<String>)
    ensures
        forall|k: Seq<char>| #[trigger] opt_str(lookup(r@, k)) == env_value(paths@, service.runtime.env@, k),
{
    let mut m = default_environment(paths);
    let env = service.runtime.env.entries();
    proof {
        assert forall|k: Seq<char>| !has_key(env@.take(0), k) by {}
    }
    let mut i: usize = 0;
    while i < env.len()
        invariant
            env@ == service.runtime.env@,
            keys_sorted(env@),
            i <= env@.len(),
            forall|k: Seq<char>| #[trigger] opt_str(lookup(m@, k)) == if has_key(env@.take(i as int), k) {
                opt_str(lookup(env@.take(i as int), k))
            } else {
                default_env(paths@, k)
            },
        decreases env.len() - i,
    {
        let e = &env[i];
        m.insert(own(e.0.as_str()), own(e.1.as_str()));
        proof {
            assert forall|k: Seq<char>| #[trigger] opt_str(lookup(m@, k)) == if has_key(env@.take(i + 1), k) {
                opt_str(lookup(env@.take(i + 1), k))
            } else {
                default_env(paths@, k)
            } by {
                lemma_prefix_lookup(env@, i as int, k);
            }
        }
        i = i + 1;
    }
    proof {
        assert forall|k: Seq<char>| #[trigger] opt_str(lookup(m@, k)) == env_value(paths@, service.runtime.env@, k) by {
            assert(env@.take(env@.len() as int) =~= env@);
        }
    }
    m
}

} // verus!

verus! {

/// The line `NAME=value` of each variable, in name order.
pub open spec fn env_lines(values: Seq<(String, String)>) -> Seq<Seq<char>> {
    values.map_values(|e: (String, String)| e.0@ + "="@ + e.1@)
}

/// The environment a service is started with.
pub fn environment_lines(values: &StrMap<String>) -> (r: Vec<String>)
    ensures
        views(r@) == env_lines(values@),
{
    let entries = values.entries();
    let mut out: Vec<String> = Vec::new();
    let mut i: usize = 0;
    while i < entries.len()
        invariant
            entries@ == values@,
            i <= entries@.len(),
            views(out@) == env_lines(entries@).take(i as int),
        decreases entries.len() - i,
    {
        let e = &entries[i];
        let ghost prev = out@;
        let line = crate::text::cat3(e.0.as_str(), "=", e.1.as_str());
        out.push(line);
        assert(views(out@) =~= views(prev).push(line@));
        assert(env_lines(entries@).take(i + 1) =~= env_lines(entries@).take(i as int).push(line@));
        i = i + 1;
    }
    assert(env_lines(entries@).take(entries@.len() as int) =~= env_lines(entries@));
    out
}

/// A service's runtime directories and the environment it is started with.
pub struct PreparedRuntime {
    pub paths: RuntimePathSet,
    pub environment: Vec<String>,
    pub environment_values: StrMap<String>,
}

/// The runtime of service `name`: its directories, and its environment
/// as variables and as `NAME=value` lines. The caller creates the
/// directories of an ephemeral service.
pub fn prepare_runtime(
    manifest: &Manifest,
    name: &str,
    service: &Service,
    xdg_runtime_dir: Option<&str>,
) -> (r: Result<PreparedRuntime, String>)
    ensures
        r matches Ok(p) ==> runtime_paths_spec(
            manifest.runtime.base@,
            name@,
            service.runtime.paths,
            opt_view(xdg_runtime_dir),
        ) == Ok::<Seq<Seq<char>>, Seq<char>>(p.paths@),
        r matches Ok(p) ==> forall|k: Seq<char>| #[trigger] opt_str(lookup(p.environment_values@, k)) == env_value(
            p.paths@,
            service.runtime.env@,
            k,
        ),
        r matches Ok(p) ==> views(p.environment@) == env_lines(p.environment_values@),
        r matches Err(e) ==> runtime_paths_spec(
            manifest.runtime.base@,
            name@,
            service.runtime.paths,
            opt_view(xdg_runtime_dir),
        ) == Err::<Seq<Seq<char>>, Seq<char>>(e@),
{
    let paths = runtime_paths(manifest, name, service, xdg_runtime_dir)?;
    let environment_values = runtime_environment_values(&paths, service);
    let environment = environment_lines(&environment_values);
    Ok(PreparedRuntime { paths, environment, environment_values })
}

/// The message for a runtime config with an empty file name.
pub open spec fn empty_file_msg(service: Seq<char>, config: Seq<char>) -> Seq<char> {
    "service `"@ + service + "` config `"@ + config + "` runtime fileName must not be empty"@
}

/// The message for a runtime config file name that could leave the config
/// directory.
pub open spec fn unsafe_file_msg(service: Seq<char>, config: Seq<char>) -> Seq<char> {
    "service `"@ + service + "` config `"@ + config
        + "` runtime fileName must be relative and stay inside the runtime config directory"@
}

/// Where a runtime config file is written: `file_name` under the config
/// directory.
pub open spec fn config_path_spec(
    config_dir: Seq<char>,
    service: Seq<char>,
    config: Seq<char>,
    file_name: Seq<char>,
) -> Result<Seq<char>, Seq<char>> {
    if file_name.len() == 0 {
        Err(empty_file_msg(service, config))
    } else if !safe_relative(file_name) {
        Err(unsafe_file_msg(service, config))
    } else {
        Ok(join(config_dir, file_name))
    }
}

/// The path of a runtime config file; refused when the name is empty or
/// could leave the config directory.
pub fn runtime_config_path(
    config_dir: &str,
    service_name: &str,
    config_name: &str,
    file_name: &str,
) -> (r: Result<String, String>)
    ensures
        str_result(r) == config_path_spec(config_dir@, service_name@, config_name@, file_name@),
{
    if file_name.unicode_len() == 0 {
        return Err(cat5(
            "service `",
            service_name,
            "` config `",
            config_name,
            "` runtime fileName must not be empty",
        ));
    }
    if !is_safe_relative_path(file_name) {
        return Err(cat5(
            "service `",
            service_name,
            "` config `",
            config_name,
            "` runtime fileName must be relative and stay inside the runtime config directory",
        ));
    }
    Ok(path_join(config_dir, file_name))
}

/// The message for a config with neither a path nor a template.
pub open spec fn neither_msg(service: Seq<char>, config: Seq<char>) -> Seq<char> {
    "service `"@ + service + "` config `"@ + config
        + "` has neither a static path nor a runtime template"@
}

/// The message for a template naming a variable the service lacks.
pub open spec fn missing_env_msg(service: Seq<char>, config: Seq<char>, env: Seq<char>) -> Seq<char> {
    "service `"@ + service + "` config `"@ + config + "` references missing env `"@ + env + "`"@
}

/// The text of a template: its pieces in order, runtime directories and
/// variables replaced by their values; or the first piece that names none.
pub open spec fn render_parts(
    service: Seq<char>,
    config: Seq<char>,
    parts: Seq<RuntimeConfigPart>,
    paths: Seq<Seq<char>>,
    env: Seq<(String, String)>,
) -> Result<Seq<char>, Seq<char>>
    decreases parts.len(),
{
    if parts.len() == 0 {
        Ok(seq![])
    } else {
        match render_parts(service, config, parts.drop_last(), paths, env) {
            Err(e) => Err(e),
            Ok(acc) => match parts.last() {
                RuntimeConfigPart::Text(t) => Ok(acc + t@),
                RuntimeConfigPart::RuntimePath { runtime_path } => match path_index(runtime_path@) {
                    Some(i) => Ok(acc + paths[i]),
                    None => Err(unknown_path_msg(service, runtime_path@)),
                },
                RuntimeConfigPart::Env { env: name } => match lookup(env, name@) {
                    Some(v) => Ok(acc + v@),
                    None => Err(missing_env_msg(service, config, name@)),
                },
            },
        }
    }
}

/// An error in a prefix of the pieces is the error of the template.
proof fn lemma_render_error_persists(
    service: Seq<char>,
    config: Seq<char>,
    parts: Seq<RuntimeConfigPart>,
    paths: Seq<Seq<char>>,
    env: Seq<(String, String)>,
    k: int,
)
    requires
        0 <= k <= parts.len(),
        render_parts(service, config, parts.take(k), paths, env) is Err,
    ensures
        render_parts(service, config, parts, paths, env) == render_parts(service, config, parts.take(k), paths, env),
    decreases parts.len(),
{
    if k == parts.len() {
        assert(parts.take(k) =~= parts);
    } else {
        assert(parts.drop_last().take(k) =~= parts.take(k));
        lemma_render_error_persists(service, config, parts.drop_last(), paths, env, k);
    }
}

/// Renders a runtime config template.
pub fn render_template(
    service_name: &str,
    config_name: &str,
    template: &RuntimeConfig,
    runtime: &PreparedRuntime,
) -> (r: Result<String, String>)
    ensures
        str_result(r) == render_parts(
            service_name@,
            config_name@,
            template.parts@,
            runtime.paths@,
            runtime.environment_values@,
        ),
{
    let mut out = String::new();
    let mut i: usize = 0;
    let ghost parts = template.parts@;
    let ghost pv = runtime.paths@;
    let ghost ev = runtime.environment_values@;
    proof {
        assert(parts.take(0) =~= Seq::<RuntimeConfigPart>::empty());
    }
    while i < template.parts.len()
        invariant
            parts == template.parts@,
            pv == runtime.paths@,
            ev == runtime.environment_values@,
            i <= parts.len(),
            render_parts(service_name@, config_name@, parts.take(i as int), pv, ev) == Ok::<Seq<char>, Seq<char>>(out@),
        decreases template.parts.len() - i,
    {
        assert(parts.take(i + 1).drop_last() =~= parts.take(i as int));
        match &template.parts[i] {
            RuntimeConfigPart::Text(t) => {
                out = crate::text::cat(out.as_str(), t.as_str());
            },
            RuntimeConfigPart::RuntimePath { runtime_path } => {
                match runtime.paths.by_name(service_name, runtime_path.as_str()) {
                    Ok(p) => {
                        out = crate::text::cat(out.as_str(), p);
                    },
                    Err(e) => {
                        proof {
                            lemma_render_error_persists(service_name@, config_name@, parts, pv, ev, i + 1);
                        }
                        return Err(e);
                    },
                }
            },
            RuntimeConfigPart::Env { env } => {
                match runtime.environment_values.get(env.as_str()) {
                    Some(v) => {
                        out = crate::text::cat(out.as_str(), v.as_str());
                    },
                    None => {
                        proof {
                            lemma_render_error_persists(service_name@, config_name@, parts, pv, ev, i + 1);
                        }
                        let head = cat5("service `", service_name, "` config `", config_name, "` references missing env `");
                        return Err(crate::text::cat3(head.as_str(), env.as_str(), "`"));
                    },
                }
            },
        }
        i = i + 1;
    }
    assert(parts.take(parts.len() as int) =~= parts);
    Ok(out)
}

/// A config as the service sees it: a static path, or a file under the
/// runtime config directory with the text to write there (or the reason
/// the template cannot be rendered). The caller creates the file's
/// directory, then writes the text.
pub enum RenderedConfig {
    Static { path: String },
    Runtime { path: String, contents: Result<String, String> },
}

/// The path of a rendered config and, for a runtime one, its text.
pub open spec fn rendered_view(c: RenderedConfig) -> (Seq<char>, Option<Result<Seq<char>, Seq<char>>>) {
    match c {
        RenderedConfig::Static { path } => (path@, None),
        RenderedConfig::Runtime { path, contents } => (path@, Some(str_result(contents))),
    }
}

/// What `render_config` gives.
pub open spec fn render_config_spec(
    service: Seq<char>,
    config_name: Seq<char>,
    config: ConfigFile,
    paths: Seq<Seq<char>>,
    env: Seq<(String, String)>,
) -> Result<(Seq<char>, Option<Result<Seq<char>, Seq<char>>>), Seq<char>> {
    match config.path {
        Some(p) => Ok((p@, None)),
        None => match config.runtime {
            None => Err(neither_msg(service, config_name)),
            Some(t) => match config_path_spec(paths[4], service, config_name, t.file_name@) {
                Err(e) => Err(e),
                Ok(p) => Ok((p, Some(render_parts(service, config_name, t.parts@, paths, env)))),
            },
        },
    }
}

impl RenderedConfig {
    /// The path the service is given for this config.
    pub fn path(&self) -> (r: &str)
        ensures
            r@ == rendered_view(*self).0,
    {
        match self {
            RenderedConfig::Static { path } => path.as_str(),
            RenderedConfig::Runtime { path, .. } => path.as_str(),
        }
    }
}

/// A config of a service, ready to be written: its static path, or its
/// runtime file and text.
pub fn render_config(
    service_name: &str,
    config_name: &str,
    config: &ConfigFile,
    runtime: &PreparedRuntime,
) -> (r: Result<RenderedConfig, String>)
    ensures
        r matches Ok(c) ==> render_config_spec(service_name@, config_name@, *config, runtime.paths@, runtime.environment_values@)
            == Ok::<(Seq<char>, Option<Result<Seq<char>, Seq<char>>>), Seq<char>>(rendered_view(c)),
        r matches Err(e) ==> render_config_spec(service_name@, config_name@, *config, runtime.paths@, runtime.environment_values@)
            == Err::<(Seq<char>, Option<Result<Seq<char>, Seq<char>>>), Seq<char>>(e@),
{
    if let Some(p) = &config.path {
        return Ok(RenderedConfig::Static { path: own(p.as_str()) });
    }
    let template = match &config.runtime {
        Some(t) => t,
        None => {
            return Err(cat5(
                "service `",
                service_name,
                "` config `",
                config_name,
                "` has neither a static path nor a runtime template",
            ));
        },
    };
    let path = runtime_config_path(
        runtime.paths.config.as_str(),
        service_name,
        config_name,
        template.file_name.as_str(),
    )?;
    let contents = render_template(service_name, config_name, template, runtime);
    Ok(RenderedConfig::Runtime { path, contents })
}

} // verus!

verus! {

/// The view of one rendered config of a plan, or its error.
pub open spec fn plan_entry_view(e: Result<RenderedConfig, String>) -> Result<
    (Seq<char>, Option<Result<Seq<char>, Seq<char>>>),
    Seq<char>,
> {
    match e {
        Ok(c) => Ok(rendered_view(c)),
        Err(x) => Err(x@),
    }
}

/// Each config of a service, rendered, in name order.
pub fn render_configs(
    service_name: &str,
    service: &Service,
    runtime: &PreparedRuntime,
) -> (r: Vec<(String, Result<RenderedConfig, String>)>)
    ensures
        r@.len() == service.configs@.len(),
        forall|i: int| 0 <= i < r@.len() ==> (#[trigger] r@[i]).0@ == service.configs@[i].0@
            && plan_entry_view(r@[i].1) == render_config_spec(
            service_name@,
            service.configs@[i].0@,
            service.configs@[i].1,
            runtime.paths@,
            runtime.environment_values@,
        ),
{
    let entries = service.configs.entries();
    let mut out: Vec<(String, Result<RenderedConfig, String>)> = Vec::new();
    let mut i: usize = 0;
    while i < entries.len()
        invariant
            entries@ == service.configs@,
            i <= entries@.len(),
            out@.len() == i,
            forall|j: int| 0 <= j < i ==> (#[trigger] out@[j]).0@ == entries@[j].0@ && plan_entry_view(
                out@[j].1,
            ) == render_config_spec(
                service_name@,
                entries@[j].0@,
                entries@[j].1,
                runtime.paths@,
                runtime.environment_values@,
            ),
        decreases entries.len() - i,
    {
        let e = &entries[i];
        let c = render_config(service_name, e.0.as_str(), &e.1, runtime);
        out.push((own(e.0.as_str()), c));
        i = i + 1;
    }
    out
}

/// The first error of a plan, if any.
pub open spec fn first_plan_error(plan: Seq<(String, Result<RenderedConfig, String>)>) -> Option<Seq<char>>
    decreases plan.len(),
{
    if plan.len() == 0 {
        None
    } else {
        match plan[0].1 {
            Err(e) => Some(e@),
            Ok(_) => first_plan_error(plan.drop_first()),
        }
    }
}

/// The path given for config `k` by a plan: that of its last entry.
pub open spec fn plan_path(plan: Seq<(String, Result<RenderedConfig, String>)>, k: Seq<char>) -> Option<Seq<char>>
    decreases plan.len(),
{
    if plan.len() == 0 {
        None
    } else if plan.last().0@ == k {
        match plan.last().1 {
            Ok(c) => Some(rendered_view(c).0),
            Err(_) => None,
        }
    } else {
        plan_path(plan.drop_last(), k)
    }
}

/// No error among the first `i` entries of a plan, and one at `i`: the
/// plan's first error is that one.
proof fn lemma_first_plan_error(plan: Seq<(String, Result<RenderedConfig, String>)>, i: int)
    requires
        0 <= i <= plan.len(),
        forall|j: int| 0 <= j < i ==> (#[trigger] plan[j]).1 is Ok,
    ensures
        i < plan.len() && plan[i].1 is Err ==> first_plan_error(plan) == Some(plan[i].1->Err_0@),
        i == plan.len() ==> first_plan_error(plan) is None,
    decreases i,
{
    if i > 0 {
        let rest = plan.drop_first();
        assert forall|j: int| 0 <= j < i - 1 implies (#[trigger] rest[j]).1 is Ok by {
            assert(rest[j] == plan[j + 1]);
        }
        lemma_first_plan_error(rest, i - 1);
        assert(plan[0].1 is Ok);
        if i < plan.len() {
            assert(rest[i - 1] == plan[i]);
        }
    } else if plan.len() == 0 {
    }
}

/// The path of each config of a plan, or the plan's first error.
pub fn rendered_paths(plan: &Vec<(String, Result<RenderedConfig, String>)>) -> (r: Result<StrMap<String>, String>)
    ensures
        first_plan_error(plan@) matches Some(e) ==> (r matches Err(x) && x@ == e),
        first_plan_error(plan@) is None ==> (r matches Ok(m) && forall|k: Seq<char>| #[trigger] opt_str(lookup(m@, k))
            == plan_path(plan@, k)),
{
    let mut m: StrMap<String> = StrMap::new();
    let mut i: usize = 0;
    while i < plan.len()
        invariant
            i <= plan@.len(),
            forall|j: int| 0 <= j < i ==> (#[trigger] plan@[j]).1 is Ok,
            forall|k: Seq<char>| #[trigger] opt_str(lookup(m@, k)) == plan_path(plan@.take(i as int), k),
        decreases plan.len() - i,
    {
        match &plan[i].1 {
            Ok(c) => {
                let name = own(plan[i].0.as_str());
                m.insert(name, own(c.path()));
                proof {
                    assert(plan@.take(i + 1).drop_last() =~= plan@.take(i as int));
                    assert forall|k: Seq<char>| #[trigger] opt_str(lookup(m@, k)) == plan_path(plan@.take(i + 1), k) by {
                        assert(plan@.take(i + 1).last() == plan@[i as int]);
                    }
                }
            },
            Err(e) => {
                proof {
                    lemma_first_plan_error(plan@, i as int);
                }
                return Err(own(e.as_str()));
            },
        }
        i = i + 1;
    }
    proof {
        lemma_first_plan_error(plan@, i as int);
        assert(plan@.take(plan@.len() as int) =~= plan@);
    }
    Ok(m)
}

/// What the status of a config shows: its kind (`static` or `runtime`),
/// its path, and the file name of a runtime config.
pub struct ConfigStatus {
    pub kind: String,
    pub path: String,
    pub file_name: Option<String>,
}

/// The status of a config, as kind, path and runtime file name.
pub open spec fn config_status_spec(
    service: Seq<char>,
    config_name: Seq<char>,
    config: ConfigFile,
    config_dir: Seq<char>,
) -> Result<(Seq<char>, Seq<char>, Option<Seq<char>>), Seq<char>> {
    match config.path {
        Some(p) => Ok(("static"@, p@, None)),
        None => match config.runtime {
            None => Err(neither_msg(service, config_name)),
            Some(t) => match config_path_spec(config_dir, service, config_name, t.file_name@) {
                Err(e) => Err(e),
                Ok(p) => Ok(("runtime"@, p, Some(t.file_name@))),
            },
        },
    }
}

/// The status of a config: where it is, and of which kind. Whether the
/// file exists the caller finds out.
pub fn config_status(
    service_name: &str,
    config_name: &str,
    config: &ConfigFile,
    paths: &RuntimePathSet,
) -> (r: Result<ConfigStatus, String>)
    ensures
        r matches Ok(s) ==> config_status_spec(service_name@, config_name@, *config, paths.config@)
            == Ok::<(Seq<char>, Seq<char>, Option<Seq<char>>), Seq<char>>((s.kind@, s.path@, opt_str(s.file_name))),
        r matches Err(e) ==> config_status_spec(service_name@, config_name@, *config, paths.config@)
            == Err::<(Seq<char>, Seq<char>, Option<Seq<char>>), Seq<char>>(e@),
{
    if let Some(p) = &config.path {
        return Ok(ConfigStatus { kind: own("static"), path: own(p.as_str()), file_name: None });
    }
    let template = match &config.runtime {
        Some(t) => t,
        None => {
            return Err(cat5(
                "service `",
                service_name,
                "` config `",
                config_name,
                "` has neither a static path nor a runtime template",
            ));
        },
    };
    let path = runtime_config_path(
        paths.config.as_str(),
        service_name,
        config_name,
        template.file_name.as_str(),
    )?;
    Ok(ConfigStatus {
        kind: own("runtime"),
        path,
        file_name: Some(own(template.file_name.as_str())),
    })
}

/// What stopping a service removes: the base runtime directory of an
/// ephemeral service, nothing for another.
pub fn cleanup_target(
    manifest: &Manifest,
    name: &str,
    service: &Service,
    xdg_runtime_dir: Option<&str>,
) -> (r: Result<Option<String>, String>)
    ensures
        !service.runtime.ephemeral ==> r matches Ok(None),
        service.runtime.ephemeral ==> match runtime_paths_spec(
            manifest.runtime.base@,
            name@,
            service.runtime.paths,
            opt_view(xdg_runtime_dir),
        ) {
            Ok(ps) => (r matches Ok(Some(b)) && b@ == ps[0]),
            Err(e) => (r matches Err(x) && x@ == e),
        },
{
    if !service.runtime.ephemeral {
        return Ok(None);
    }
    let paths = runtime_paths(manifest, name, service, xdg_runtime_dir)?;
    Ok(Some(paths.base))
}

} // verus!

verus! {

/// Law: a runtime config file lies under the service's config directory,
/// with plain names only below it.
pub proof fn lemma_config_path_stays_under(
    config_dir: Seq<char>,
    service: Seq<char>,
    config: Seq<char>,
    file_name: Seq<char>,
)
    requires
        config_path_spec(config_dir, service, config, file_name) is Ok,
    ensures
        path_starts_with(config_path_spec(config_dir, service, config, file_name)->Ok_0, config_dir),
        all_normal(
            components(config_path_spec(config_dir, service, config, file_name)->Ok_0).skip(
                components(config_dir).len() as int,
            ),
        ),
{
    lemma_join_stays_under(config_dir, file_name);
}

} // verus!
