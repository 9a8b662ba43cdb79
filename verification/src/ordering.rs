//! Which services an operation touches and in which order: dependency
//! validation, the sets pulled in by `requires`/`wants` and by `partOf`,
//! and the dependency order in which services start and stop.
use vstd::prelude::*;

use crate::manifest::{
    no_service_error, no_service_msg, pair_views, Dependencies, Manifest, Service,
};
use crate::strmap::{
    has_key, key_index, keys_of, keys_sorted, lemma_lookup_at, lookup, name_set, names_sorted, views, StrSet,
};
use crate::text::{cat, cat3, cat5, lex_lt, own, str_eq};

verus! {

/// The message for a dependency on a service the manifest does not hold.
pub open spec fn unknown_dep_msg(service: Seq<char>, field: Seq<char>, dep: Seq<char>) -> Seq<
    char,
> {
    "service `"@ + service + "` has unknown `"@ + field + "` dependency `"@ + dep + "`"@
}

/// Every name in `deps` is a service of the manifest.
pub open spec fn deps_known(services: Seq<(String, Service)>, deps: Seq<String>) -> bool {
    forall|j: int| 0 <= j < deps.len() ==> has_key(services, #[trigger] deps[j]@)
}

/// `j` is the first index of `deps` that is not a service.
pub open spec fn first_unknown(services: Seq<(String, Service)>, deps: Seq<String>, j: int) -> bool {
    &&& 0 <= j < deps.len()
    &&& !has_key(services, deps[j]@)
    &&& forall|k: int| 0 <= k < j ==> has_key(services, #[trigger] deps[k]@)
}

/// The message for the first unknown name of `deps`.
pub open spec fn first_unknown_msg(
    services: Seq<(String, Service)>,
    service: Seq<char>,
    field: Seq<char>,
    deps: Seq<String>,
) -> Seq<char> {
    unknown_dep_msg(service, field, deps[choose|j: int| first_unknown(services, deps, j)]@)
}

/// The check of one service's dependency lists, in the order
/// requires, wants, after, before, partOf.
pub open spec fn service_check(
    services: Seq<(String, Service)>,
    name: Seq<char>,
    d: Dependencies,
) -> Result<(), Seq<char>> {
    if !deps_known(services, d.requires@) {
        Err(first_unknown_msg(services, name, "requires/wants"@, d.requires@))
    } else if !deps_known(services, d.wants@) {
        Err(first_unknown_msg(services, name, "requires/wants"@, d.wants@))
    } else if !deps_known(services, d.after@) {
        Err(first_unknown_msg(services, name, "after"@, d.after@))
    } else if !deps_known(services, d.before@) {
        Err(first_unknown_msg(services, name, "before"@, d.before@))
    } else if !deps_known(services, d.part_of@) {
        Err(first_unknown_msg(services, name, "partOf"@, d.part_of@))
    } else {
        Ok(())
    }
}

/// The check of the first `k` services, in name order.
pub open spec fn validate_prefix(services: Seq<(String, Service)>, k: int) -> Result<
    (),
    Seq<char>,
>
    decreases k,
{
    if k <= 0 {
        Ok(())
    } else {
        match validate_prefix(services, k - 1) {
            Err(e) => Err(e),
            Ok(_) => service_check(services, services[k - 1].0@, services[k - 1].1.dependencies),
        }
    }
}

/// Every dependency of every service names a service of the manifest;
/// otherwise the error for the first one that does not.
pub open spec fn validate_spec(services: Seq<(String, Service)>) -> Result<(), Seq<char>> {
    validate_prefix(services, services.len() as int)
}

/// All dependency names of all services are services.
pub open spec fn all_deps_known(services: Seq<(String, Service)>) -> bool {
    forall|i: int|
        0 <= i < services.len() ==> {
            let d = (#[trigger] services[i]).1.dependencies;
            &&& deps_known(services, d.requires@)
            &&& deps_known(services, d.wants@)
            &&& deps_known(services, d.after@)
            &&& deps_known(services, d.before@)
            &&& deps_known(services, d.part_of@)
        }
}

pub proof fn lemma_first_unknown_unique(
    services: Seq<(String, Service)>,
    deps: Seq<String>,
    j: int,
    k: int,
)
    requires
        first_unknown(services, deps, j),
        first_unknown(services, deps, k),
    ensures
        j == k,
{
}

pub proof fn lemma_validate_prefix_ok(services: Seq<(String, Service)>, k: int)
    requires
        0 <= k <= services.len(),
    ensures
        validate_prefix(services, k) is Ok <==> forall|i: int|
            0 <= i < k ==> service_check(services, (#[trigger] services[i]).0@, services[i].1.dependencies) is Ok,
    decreases k,
{
    if k > 0 {
        lemma_validate_prefix_ok(services, k - 1);
    }
}

/// `validate_spec` succeeds exactly when all dependency names are known.
pub proof fn lemma_validate_ok(services: Seq<(String, Service)>)
    ensures
        validate_spec(services) is Ok <==> all_deps_known(services),
{
    lemma_validate_prefix_ok(services, services.len() as int);
}

/// Checks that every name of `deps` is a service.
fn check_deps(manifest: &Manifest, service: &str, field: &str, deps: &Vec<String>) -> (r: Result<
    (),
    String,
>)
    ensures
        r is Ok <==> deps_known(manifest.services@, deps@),
        r matches Err(e) ==> e@ == first_unknown_msg(
            manifest.services@,
            service@,
            field@,
            deps@,
        ),
{
    let mut j: usize = 0;
    while j < deps.len()
        invariant
            j <= deps@.len(),
            forall|k: int| 0 <= k < j ==> has_key(manifest.services@, #[trigger] deps@[k]@),
        decreases deps.len() - j,
    {
        if !manifest.services.contains_key(deps[j].as_str()) {
            proof {
                assert(first_unknown(manifest.services@, deps@, j as int));
                let c = choose|k: int| first_unknown(manifest.services@, deps@, k);
                lemma_first_unknown_unique(manifest.services@, deps@, j as int, c);
            }
            return Err(unknown_dependency_error(service, field, deps[j].as_str()));
        }
        j = j + 1;
    }
    Ok(())
}

/// Builds `unknown_dep_msg(service, field, dep)`.
fn unknown_dependency_error(service: &str, field: &str, dep: &str) -> (r: String)
    ensures
        r@ == unknown_dep_msg(service@, field@, dep@),
{
    let a = cat5("service `", service, "` has unknown `", field, "` dependency `");
    let b = cat(a.as_str(), dep);
    cat(b.as_str(), "`")
}

/// Checks that every dependency of every service names a service of the
/// manifest.
pub fn validate_dependencies(manifest: &Manifest) -> (r: Result<(), String>)
    ensures
        r is Ok <==> validate_spec(manifest.services@) is Ok,
        r matches Err(e) ==> validate_spec(manifest.services@) == Err::<(), Seq<char>>(e@),
{
    let entries = manifest.services.entries();
    let mut i: usize = 0;
    while i < entries.len()
        invariant
            entries@ == manifest.services@,
            i <= entries@.len(),
            validate_prefix(manifest.services@, i as int) is Ok,
        decreases entries.len() - i,
    {
        let name = entries[i].0.as_str();
        let d = &entries[i].1.dependencies;
        let r1 = check_deps(manifest, name, "requires/wants", &d.requires);
        if let Err(e) = r1 {
            proof {
                lemma_validate_error_persists(manifest.services@, i + 1);
            }
            return Err(e);
        }
        let r2 = check_deps(manifest, name, "requires/wants", &d.wants);
        if let Err(e) = r2 {
            proof {
                lemma_validate_error_persists(manifest.services@, i + 1);
            }
            return Err(e);
        }
        let r3 = check_deps(manifest, name, "after", &d.after);
        if let Err(e) = r3 {
            proof {
                lemma_validate_error_persists(manifest.services@, i + 1);
            }
            return Err(e);
        }
        let r4 = check_deps(manifest, name, "before", &d.before);
        if let Err(e) = r4 {
            proof {
                lemma_validate_error_persists(manifest.services@, i + 1);
            }
            return Err(e);
        }
        let r5 = check_deps(manifest, name, "partOf", &d.part_of);
        if let Err(e) = r5 {
            proof {
                lemma_validate_error_persists(manifest.services@, i + 1);
            }
            return Err(e);
        }
        i = i + 1;
    }
    Ok(())
}

/// An error in the check of a prefix is the error of the whole check.
pub proof fn lemma_validate_error_persists(services: Seq<(String, Service)>, k: int)
    requires
        0 <= k <= services.len(),
        validate_prefix(services, k) is Err,
    ensures
        validate_spec(services) == validate_prefix(services, k),
    decreases services.len() - k,
{
    if k < services.len() {
        lemma_validate_error_persists(services, k + 1);
    }
}

/// Fails unless `name` is a service of the manifest.
pub fn ensure_service_exists(manifest: &Manifest, name: &str) -> (r: Result<(), String>)
    ensures
        r is Ok <==> has_key(manifest.services@, name@),
        r matches Err(e) ==> e@ == no_service_msg(name@),
{
    if manifest.services.contains_key(name) {
        Ok(())
    } else {
        Err(no_service_error(name))
    }
}

/// Fails unless `dependency`, named in `field` of `service`, is a service
/// of the manifest.
pub fn ensure_dependency_exists(manifest: &Manifest, service: &str, field: &str, dependency: &str) -> (r:
    Result<(), String>)
    ensures
        r is Ok <==> has_key(manifest.services@, dependency@),
        r matches Err(e) ==> e@ == unknown_dep_msg(service@, field@, dependency@),
{
    if manifest.services.contains_key(dependency) {
        Ok(())
    } else {
        Err(unknown_dependency_error(service, field, dependency))
    }
}

/// The service named `name`.
pub fn get_service<'a>(manifest: &'a Manifest, name: &str) -> (r: Result<&'a Service, String>)
    ensures
        r is Ok <==> has_key(manifest.services@, name@),
        r matches Ok(s) ==> lookup(manifest.services@, name@) == Some(*s),
        r matches Err(e) ==> e@ == no_service_msg(name@),
{
    match manifest.services.get(name) {
        Some(s) => Ok(s),
        None => Err(no_service_error(name)),
    }
}

/// The set of service names of the manifest.
pub open spec fn service_names(m: Manifest) -> Set<Seq<char>> {
    keys_of(m.services@).to_set()
}

/// `i` is the first target the manifest does not hold.
pub open spec fn first_missing_target(m: Manifest, targets: Seq<String>, i: int) -> bool {
    &&& 0 <= i < targets.len()
    &&& !has_key(m.services@, targets[i]@)
    &&& forall|j: int| 0 <= j < i ==> has_key(m.services@, #[trigger] targets[j]@)
}

pub proof fn lemma_keys_has_key(services: Seq<(String, Service)>, k: Seq<char>)
    ensures
        keys_of(services).to_set().contains(k) <==> has_key(services, k),
{
    if has_key(services, k) {
        let i = choose|i: int| 0 <= i < services.len() && #[trigger] services[i].0@ == k;
        assert(keys_of(services)[i] == k);
    }
    if keys_of(services).to_set().contains(k) {
        let i = choose|i: int| 0 <= i < keys_of(services).len() && keys_of(services)[i] == k;
        assert(services[i].0@ == k);
    }
}

/// The services an operation starts from: all of them when no target is
/// given, else the targets, each of which must be a service.
pub fn initial_set(manifest: &Manifest, targets: &[String]) -> (r: Result<StrSet, String>)
    ensures
        targets@.len() == 0 ==> (r matches Ok(s) && name_set(s@) == service_names(*manifest)),
        targets@.len() > 0 ==> (r is Err <==> exists|i: int|
            first_missing_target(*manifest, targets@, i)),
        r matches Err(e) ==> exists|i: int|
            first_missing_target(*manifest, targets@, i) && e@ == no_service_msg(targets@[i]@),
        targets@.len() > 0 ==> (r matches Ok(s) ==> name_set(s@) == views(targets@).to_set()),
{
    let mut selected = StrSet::new();
    if targets.len() == 0 {
        let entries = manifest.services.entries();
        let mut i: usize = 0;
        while i < entries.len()
            invariant
                entries@ == manifest.services@,
                i <= entries@.len(),
                name_set(selected@) == keys_of(entries@).take(i as int).to_set(),
            decreases entries.len() - i,
        {
            selected.insert(own(entries[i].0.as_str()));
            assert(keys_of(entries@).take(i + 1) =~= keys_of(entries@).take(i as int).push(
                entries@[i as int].0@,
            ));
            proof {
                keys_of(entries@).take(i as int).lemma_push_to_set_commute(entries@[i as int].0@);
            }
            assert(keys_of(entries@).take(i + 1).to_set() =~= keys_of(entries@).take(
                i as int,
            ).to_set().insert(entries@[i as int].0@));
            i = i + 1;
        }
        assert(keys_of(entries@).take(entries@.len() as int) =~= keys_of(entries@));
        return Ok(selected);
    }
    let mut i: usize = 0;
    while i < targets.len()
        invariant
            i <= targets@.len(),
            forall|j: int| 0 <= j < i ==> has_key(manifest.services@, #[trigger] targets@[j]@),
            name_set(selected@) == views(targets@.take(i as int)).to_set(),
        decreases targets.len() - i,
    {
        if let Err(e) = ensure_service_exists(manifest, targets[i].as_str()) {
            proof {
                assert(first_missing_target(*manifest, targets@, i as int));
            }
            return Err(e);
        }
        selected.insert(own(targets[i].as_str()));
        assert(views(targets@.take(i + 1)) =~= views(targets@.take(i as int)).push(
            targets@[i as int]@,
        ));
        proof {
            views(targets@.take(i as int)).lemma_push_to_set_commute(targets@[i as int]@);
        }
        assert(views(targets@.take(i + 1)).to_set() =~= views(targets@.take(
            i as int,
        )).to_set().insert(targets@[i as int]@));
        i = i + 1;
    }
    assert(targets@.take(targets@.len() as int) =~= targets@);
    Ok(selected)
}

/// The services named by `names`, in that order.
pub fn names_to_services<'a>(manifest: &'a Manifest, names: Vec<String>) -> (r: Result<
    Vec<(&'a str, &'a Service)>,
    String,
>)
    ensures
        r is Err <==> exists|i: int| first_missing_target(*manifest, names@, i),
        r matches Err(e) ==> exists|i: int|
            first_missing_target(*manifest, names@, i) && e@ == no_service_msg(names@[i]@),
        r matches Ok(v) ==> pair_views(v@) == crate::manifest::named_pairs(
            manifest.services@,
            names@,
        ),
{
    if names.len() == 0 {
        let v: Vec<(&'a str, &'a Service)> = Vec::new();
        assert(pair_views(v@) =~= crate::manifest::named_pairs(manifest.services@, names@));
        return Ok(v);
    }
    let r = manifest.selected_services(names.as_slice());
    proof {
        if r is Err {
            let e = r->Err_0;
            let i = choose|i: int|
                crate::manifest::first_missing(manifest.services@, names@, i) && e@
                    == no_service_msg(names@[i]@);
            assert(first_missing_target(*manifest, names@, i));
        }
        if exists|i: int| first_missing_target(*manifest, names@, i) {
            let i = choose|i: int| first_missing_target(*manifest, names@, i);
            assert(crate::manifest::first_missing(manifest.services@, names@, i));
        }
    }
    r
}


/// The services `n` pulls in when it starts: its `requires` and `wants`.
pub open spec fn act_deps(s: Service) -> Seq<Seq<char>> {
    views(s.dependencies.requires@) + views(s.dependencies.wants@)
}

/// `n` is a service that requires or wants `d`.
pub open spec fn act_edge(m: Manifest, n: Seq<char>, d: Seq<char>) -> bool {
    has_key(m.services@, n) && act_deps(lookup(m.services@, n).unwrap()).contains(d)
}

/// `x` holds everything its services require or want.
pub open spec fn act_closed(m: Manifest, x: Set<Seq<char>>) -> bool {
    forall|n: Seq<char>, d: Seq<char>|
        #![trigger x.contains(n), act_edge(m, n, d)]
        x.contains(n) && act_edge(m, n, d) ==> x.contains(d)
}

/// The smallest set that holds `sel` and everything its services require
/// or want, directly or through others.
pub open spec fn act_closure(m: Manifest, sel: Set<Seq<char>>) -> Set<Seq<char>> {
    Set::new(|n: Seq<char>| forall|x: Set<Seq<char>>| act_closed(m, x) && sel.subset_of(x) ==> #[trigger] x.contains(n))
}

/// `o` is a service that `n` is part of.
pub open spec fn part_of_edge(m: Manifest, n: Seq<char>, o: Seq<char>) -> bool {
    has_key(m.services@, n) && views(lookup(m.services@, n).unwrap().dependencies.part_of@).contains(o)
}

/// `x` holds every service that is part of one of its members.
pub open spec fn part_of_closed(m: Manifest, x: Set<Seq<char>>) -> bool {
    forall|n: Seq<char>, o: Seq<char>|
        #![trigger x.contains(o), part_of_edge(m, n, o)]
        x.contains(o) && part_of_edge(m, n, o) ==> x.contains(n)
}

/// The smallest set that holds `sel` and every service that is part of one
/// of its members, directly or through others.
pub open spec fn part_of_closure(m: Manifest, sel: Set<Seq<char>>) -> Set<Seq<char>> {
    Set::new(|n: Seq<char>| forall|x: Set<Seq<char>>| part_of_closed(m, x) && sel.subset_of(x) ==> #[trigger] x.contains(n))
}

pub proof fn lemma_act_closure(m: Manifest, sel: Set<Seq<char>>)
    ensures
        sel.subset_of(act_closure(m, sel)),
        act_closed(m, act_closure(m, sel)),
        forall|x: Set<Seq<char>>| act_closed(m, x) && sel.subset_of(x) ==> #[trigger] act_closure(m, sel).subset_of(x),
{
    let c = act_closure(m, sel);
    assert forall|n: Seq<char>, d: Seq<char>| c.contains(n) && act_edge(m, n, d) implies c.contains(d) by {
        assert forall|x: Set<Seq<char>>| act_closed(m, x) && sel.subset_of(x) implies #[trigger] x.contains(d) by {
            assert(x.contains(n));
        }
    }
}

pub proof fn lemma_part_of_closure(m: Manifest, sel: Set<Seq<char>>)
    ensures
        sel.subset_of(part_of_closure(m, sel)),
        part_of_closed(m, part_of_closure(m, sel)),
        forall|x: Set<Seq<char>>| part_of_closed(m, x) && sel.subset_of(x) ==> #[trigger] part_of_closure(m, sel).subset_of(x),
{
    let c = part_of_closure(m, sel);
    assert forall|n: Seq<char>, o: Seq<char>| c.contains(o) && part_of_edge(m, n, o) implies c.contains(n) by {
        assert forall|x: Set<Seq<char>>| part_of_closed(m, x) && sel.subset_of(x) implies #[trigger] x.contains(n) by {
            assert(x.contains(o));
        }
    }
}

/// A copy of a list of strings.
pub fn clone_strings(v: &Vec<String>) -> (r: Vec<String>)
    ensures
        views(r@) == views(v@),
{
    let mut r: Vec<String> = Vec::new();
    let mut i: usize = 0;
    while i < v.len()
        invariant
            i <= v@.len(),
            views(r@) == views(v@).take(i as int),
        decreases v.len() - i,
    {
        let ghost prev = r@;
        r.push(own(v[i].as_str()));
        assert(views(r@) =~= views(prev).push(v@[i as int]@));
        assert(views(r@) =~= views(v@).take(i + 1));
        i = i + 1;
    }
    assert(views(v@).take(v@.len() as int) =~= views(v@));
    r
}

/// The concatenation of two lists of strings.
pub fn concat_strings(a: &Vec<String>, b: &Vec<String>) -> (r: Vec<String>)
    ensures
        views(r@) == views(a@) + views(b@),
{
    let mut r = clone_strings(a);
    let mut i: usize = 0;
    while i < b.len()
        invariant
            i <= b@.len(),
            views(r@) == views(a@) + views(b@).take(i as int),
        decreases b.len() - i,
    {
        let ghost prev = r@;
        r.push(own(b[i].as_str()));
        assert(views(r@) =~= views(prev).push(b@[i as int]@));
        assert(views(r@) =~= views(a@) + views(b@).take(i + 1));
        i = i + 1;
    }
    assert(views(b@).take(b@.len() as int) =~= views(b@));
    r
}

/// `e` reports a member of `c` that is not a service, or a `requires` or
/// `wants` entry of a member that names no service.
pub open spec fn act_error(m: Manifest, c: Set<Seq<char>>, e: Seq<char>) -> bool {
    exists|n: Seq<char>|
        #![trigger c.contains(n)]
        c.contains(n) && ((!has_key(m.services@, n) && e == no_service_msg(n)) || (exists|d: Seq<char>|
            act_edge(m, n, d) && !has_key(m.services@, d) && e == unknown_dep_msg(
                n,
                "requires/wants"@,
                d,
            )))
}

/// The invariant of the expansion worklist: every member of `sel` that is
/// not pending, other than `skip`, is a service whose dependencies are all
/// members.
pub open spec fn processed_ok(m: Manifest, sel: Set<Seq<char>>, pending: Seq<Seq<char>>, skip: Option<Seq<char>>) -> bool {
    forall|n: Seq<char>|
        #![trigger sel.contains(n)]
        sel.contains(n) && !pending.contains(n) && skip != Some(n) ==> has_key(m.services@, n) && (
        forall|d: Seq<char>| act_edge(m, n, d) ==> sel.contains(d))
}

/// One pass over the dependencies `deps` of `n`: each must be a service;
/// each not yet selected is selected and queued.
pub open spec fn dep_pass(
    m: Manifest,
    n: Seq<char>,
    deps: Seq<Seq<char>>,
    sel: Set<Seq<char>>,
    pending: Seq<Seq<char>>,
) -> Result<(Set<Seq<char>>, Seq<Seq<char>>), Seq<char>>
    decreases deps.len(),
{
    if deps.len() == 0 {
        Ok((sel, pending))
    } else {
        let d = deps[0];
        if !has_key(m.services@, d) {
            Err(unknown_dep_msg(n, "requires/wants"@, d))
        } else if sel.contains(d) {
            dep_pass(m, n, deps.drop_first(), sel, pending)
        } else {
            dep_pass(m, n, deps.drop_first(), sel.insert(d), pending.push(d))
        }
    }
}

/// The expansion worklist, run for at most `fuel` steps: the last queued
/// name, which must be a service, is taken off and its dependencies
/// passed over.
pub open spec fn expand_run(m: Manifest, sel: Set<Seq<char>>, pending: Seq<Seq<char>>, fuel: nat) -> Result<
    Set<Seq<char>>,
    Seq<char>,
>
    decreases fuel,
{
    if pending.len() == 0 || fuel == 0 {
        Ok(sel)
    } else {
        let n = pending.last();
        if !has_key(m.services@, n) {
            Err(no_service_msg(n))
        } else {
            match dep_pass(m, n, act_deps(lookup(m.services@, n).unwrap()), sel, pending.drop_last()) {
                Err(e) => Err(e),
                Ok((s2, p2)) => expand_run(m, s2, p2, (fuel - 1) as nat),
            }
        }
    }
}

/// What expanding the names `start` gives: the worklist starts as
/// `start`, and has room for every name and every service.
pub open spec fn expand_spec(m: Manifest, start: Seq<Seq<char>>) -> Result<Set<Seq<char>>, Seq<char>> {
    expand_run(m, start.to_set(), start, start.len() + m.services@.len() + 1)
}

/// Adds to `selected` every service its members require or want, directly
/// or through others; fails on a member that is not a service or on a
/// `requires`/`wants` entry that names no service.
pub fn expand_activation_dependencies(manifest: &Manifest, selected: &mut StrSet) -> (r: Result<(), String>)
    ensures
        r is Ok <==> act_closure(*manifest, name_set(old(selected)@)).subset_of(service_names(*manifest)),
        r is Ok ==> name_set(final(selected)@) == act_closure(*manifest, name_set(old(selected)@)),
        r matches Err(e) ==> act_error(*manifest, act_closure(*manifest, name_set(old(selected)@)), e@),
        r matches Err(e) ==> expand_spec(*manifest, views(old(selected)@)) == Err::<Set<Seq<char>>, Seq<char>>(e@),
{
    let ghost sel0 = name_set(selected@);
    let ghost fuel0: nat = views(selected@).len() + manifest.services@.len() + 1;
    let ghost mut pops: nat = 0;
    let ghost c = act_closure(*manifest, sel0);
    let ghost names0 = views(selected@);
    let ghost bound = selected@.len() + manifest.services@.len();
    let ghost universe = names0.to_set().union(keys_of(manifest.services@).to_set());
    let mut pending = clone_strings(selected.items());
    proof {
        lemma_act_closure(*manifest, sel0);
        crate::strmap::lemma_names_sorted_card(selected@);
        assert(sel0.subset_of(universe));
        assert(views(pending@).to_set() =~= name_set(selected@));
        assert forall|n: Seq<char>| name_set(selected@).contains(n) implies views(pending@).contains(n) by {
            assert(views(pending@).to_set().contains(n));
        }
    }
    while pending.len() > 0
        invariant
            sel0 == name_set(old(selected)@),
            c == act_closure(*manifest, sel0),
            sel0.subset_of(c),
            act_closed(*manifest, c),
            names_sorted(selected@),
            sel0.subset_of(name_set(selected@)),
            name_set(selected@).subset_of(c),
            name_set(selected@).subset_of(universe),
            universe == names0.to_set().union(keys_of(manifest.services@).to_set()),
            bound == names0.len() + manifest.services@.len(),
            views(pending@).to_set().subset_of(name_set(selected@)),
            views(pending@).no_duplicates(),
            processed_ok(*manifest, name_set(selected@), views(pending@), None),
            fuel0 == names0.len() + manifest.services@.len() + 1,
            names0 == views(old(selected)@),
            pops + pending@.len() == selected@.len(),
            expand_spec(*manifest, names0) == expand_run(*manifest, name_set(selected@), views(pending@), (fuel0 - pops) as nat),
        decreases 2 * (bound - selected@.len()) + pending@.len(),
    {
        proof {
            crate::strmap::lemma_names_bound(selected@, names0, keys_of(manifest.services@));
        }
        let ghost before = views(pending@);
        let ghost m0 = 2 * (bound - selected@.len()) + pending@.len();
        let name = pending.pop().unwrap();
        proof {
            assert forall|a: int, b: int| 0 <= a < views(pending@).len() && 0 <= b < views(pending@).len() && a != b implies views(pending@)[a] != views(pending@)[b] by {
                assert(views(pending@)[a] == before[a]);
                assert(views(pending@)[b] == before[b]);
            }
            assert(before =~= views(pending@).push(name@));
            assert(before.contains(name@)) by { assert(before[before.len() - 1] == name@); }
            assert(before.to_set().contains(name@));
            assert(!views(pending@).contains(name@)) by {
                if views(pending@).contains(name@) {
                    let k = choose|k: int| 0 <= k < views(pending@).len() && views(pending@)[k] == name@;
                    assert(before[k] == before[before.len() - 1]);
                }
            }
            assert forall|x: Seq<char>| views(pending@).to_set().contains(x) implies before.to_set().contains(x) by {
                let k = choose|k: int| 0 <= k < views(pending@).len() && views(pending@)[k] == x;
                assert(before[k] == x);
            }
            assert forall|x: Seq<char>| #![trigger name_set(selected@).contains(x)] name_set(selected@).contains(x) && !views(pending@).contains(x) && Some(name@) != Some(x) implies !before.contains(x) by {
                if before.contains(x) {
                    let k = choose|k: int| 0 <= k < before.len() && before[k] == x;
                    if k < before.len() - 1 {
                        assert(views(pending@)[k] == x);
                    }
                }
            }
            assert(processed_ok(*manifest, name_set(selected@), views(pending@), Some(name@)));
        }
        let ghost sel_at = name_set(selected@);
        let ghost pend_at = views(pending@);
        let ghost f: nat = (fuel0 - pops) as nat;
        proof {
            assert(f > 0);
            assert(before.last() == name@);
            assert(before.drop_last() =~= pend_at);
        }
        let service = match get_service(manifest, name.as_str()) {
            Ok(s) => s,
            Err(e) => {
                proof {
                    assert(c.contains(name@));
                    assert(act_error(*manifest, c, e@));
                    assert(expand_run(*manifest, sel_at, before, f) == Err::<Set<Seq<char>>, Seq<char>>(e@));
                }
                return Err(e);
            },
        };
        let list = concat_strings(&service.dependencies.requires, &service.dependencies.wants);
        let mut j: usize = 0;
        proof {
            assert(views(list@).skip(0) =~= views(list@));
        }
        while j < list.len()
            invariant
                j <= list@.len(),
                views(list@) == act_deps(*service),
                lookup(manifest.services@, name@) == Some(*service),
                has_key(manifest.services@, name@),
                c.contains(name@),
                sel0 == name_set(old(selected)@),
                c == act_closure(*manifest, sel0),
                act_closed(*manifest, c),
                sel0.subset_of(name_set(selected@)),
                name_set(selected@).subset_of(c),
                name_set(selected@).subset_of(universe),
                universe == names0.to_set().union(keys_of(manifest.services@).to_set()),
                bound == names0.len() + manifest.services@.len(),
                names_sorted(selected@),
                views(pending@).to_set().subset_of(name_set(selected@)),
                views(pending@).no_duplicates(),
                !views(pending@).contains(name@),
                name_set(selected@).contains(name@),
                processed_ok(*manifest, name_set(selected@), views(pending@), Some(name@)),
                forall|jj: int| 0 <= jj < j ==> name_set(selected@).contains(#[trigger] views(list@)[jj]),
                selected@.len() <= bound,
                2 * (bound - selected@.len()) + pending@.len() < m0,
                fuel0 == names0.len() + manifest.services@.len() + 1,
                names0 == views(old(selected)@),
                pops + 1 + pending@.len() == selected@.len(),
                f == fuel0 - pops,
                f > 0,
                expand_spec(*manifest, names0) == expand_run(*manifest, sel_at, before, f),
                before.len() > 0 && before.last() == name@ && before.drop_last() == pend_at,
                dep_pass(*manifest, name@, act_deps(*service), sel_at, pend_at) == dep_pass(
                    *manifest,
                    name@,
                    views(list@).skip(j as int),
                    name_set(selected@),
                    views(pending@),
                ),
            decreases list.len() - j,
        {
            let dep = &list[j];
            proof {
                assert(views(list@)[j as int] == dep@);
                assert(act_edge(*manifest, name@, dep@));
                assert(views(list@).skip(j as int)[0] == dep@);
                assert(views(list@).skip(j as int).drop_first() =~= views(list@).skip(j + 1));
            }
            if let Err(e) = ensure_dependency_exists(manifest, name.as_str(), "requires/wants", dep.as_str()) {
                proof {
                    assert(act_edge(*manifest, name@, dep@) && !has_key(manifest.services@, dep@) && e@ == unknown_dep_msg(name@, "requires/wants"@, dep@));
                    assert(c.contains(name@));
                    assert(act_error(*manifest, c, e@));
                    assert(expand_run(*manifest, sel_at, before, f) == Err::<Set<Seq<char>>, Seq<char>>(e@));
                }
                return Err(e);
            }
            proof {
                lemma_keys_has_key(manifest.services@, dep@);
                assert(c.contains(dep@));
            }
            let ghost sel_before = name_set(selected@);
            let ghost pend_before = views(pending@);
            if selected.insert(own(dep.as_str())) {
                pending.push(own(dep.as_str()));
                proof {
                    crate::strmap::lemma_names_bound(selected@, names0, keys_of(manifest.services@));
                    assert(views(pending@) =~= pend_before.push(dep@));
                    assert(!pend_before.contains(dep@)) by {
                        if pend_before.contains(dep@) {
                            let k = choose|k: int| 0 <= k < pend_before.len() && pend_before[k] == dep@;
                            assert(pend_before.to_set().contains(dep@));
                        }
                    }
                    assert forall|x: Seq<char>| views(pending@).to_set().contains(x) implies name_set(selected@).contains(x) by {
                        let k = choose|k: int| 0 <= k < views(pending@).len() && views(pending@)[k] == x;
                        if k < pend_before.len() {
                            assert(pend_before[k] == x);
                            assert(pend_before.to_set().contains(x));
                        }
                    }
                    assert forall|a: int, b: int| 0 <= a < views(pending@).len() && 0 <= b < views(pending@).len() && a != b implies views(pending@)[a] != views(pending@)[b] by {
                        if a == pend_before.len() {
                            assert(pend_before.contains(pend_before[b]));
                        } else if b == pend_before.len() {
                            assert(pend_before.contains(pend_before[a]));
                        }
                    }
                    assert forall|n: Seq<char>| #![trigger name_set(selected@).contains(n)] name_set(selected@).contains(n) && !views(pending@).contains(n) && Some(name@) != Some(n) implies has_key(manifest.services@, n) && (forall|d: Seq<char>| act_edge(*manifest, n, d) ==> name_set(selected@).contains(d)) by {
                        if n == dep@ {
                            assert(views(pending@)[views(pending@).len() - 1] == dep@);
                        }
                        assert(sel_before.contains(n));
                        if pend_before.contains(n) {
                            let k = choose|k: int| 0 <= k < pend_before.len() && pend_before[k] == n;
                            assert(views(pending@)[k] == n);
                        }
                        assert(forall|d: Seq<char>| act_edge(*manifest, n, d) ==> sel_before.contains(d));
                    }
                    assert(!views(pending@).contains(name@)) by {
                        if views(pending@).contains(name@) {
                            let k = choose|k: int| 0 <= k < views(pending@).len() && views(pending@)[k] == name@;
                            if k < pend_before.len() {
                                assert(pend_before[k] == name@);
                            }
                        }
                    }
                }
            } else {
                proof {
                    assert(name_set(selected@) == sel_before);
                }
            }
            j = j + 1;
        }
        proof {
            assert forall|d: Seq<char>| act_edge(*manifest, name@, d) implies name_set(selected@).contains(d) by {
                let ad = act_deps(*service);
                let k = choose|k: int| 0 <= k < ad.len() && ad[k] == d;
                assert(views(list@)[k] == d);
            }
            assert(processed_ok(*manifest, name_set(selected@), views(pending@), None));
            assert(views(list@).skip(list@.len() as int) =~= Seq::<Seq<char>>::empty());
            assert(expand_run(*manifest, sel_at, before, f) == expand_run(
                *manifest,
                name_set(selected@),
                views(pending@),
                (f - 1) as nat,
            ));
            pops = pops + 1;
        }
    }
    proof {
        assert(act_closed(*manifest, name_set(selected@))) by {
            assert forall|n: Seq<char>, d: Seq<char>| name_set(selected@).contains(n) && act_edge(*manifest, n, d) implies name_set(selected@).contains(d) by {
                assert(!views(pending@).contains(n));
            }
        }
        assert(c.subset_of(name_set(selected@)));
        assert(name_set(selected@) =~= c);
        assert forall|n: Seq<char>| c.contains(n) implies service_names(*manifest).contains(n) by {
            assert(!views(pending@).contains(n));
            assert(name_set(selected@).contains(n));
            lemma_keys_has_key(manifest.services@, n);
        }
    }
    Ok(())
}

/// Whether some name of `list` is a member of `set`.
pub fn any_in(list: &Vec<String>, set: &StrSet) -> (r: bool)
    ensures
        r == exists|j: int| 0 <= j < list@.len() && name_set(set@).contains(#[trigger] list@[j]@),
{
    let mut j: usize = 0;
    while j < list.len()
        invariant
            j <= list@.len(),
            forall|k: int| 0 <= k < j ==> !name_set(set@).contains(#[trigger] list@[k]@),
        decreases list.len() - j,
    {
        if set.contains(list[j].as_str()) {
            return true;
        }
        j = j + 1;
    }
    false
}

/// Adds to `selected` every service that is part of one of its members,
/// directly or through others, after checking every dependency of the
/// manifest.
pub fn expand_part_of_dependents(manifest: &Manifest, selected: &mut StrSet) -> (r: Result<(), String>)
    ensures
        r is Ok <==> validate_spec(manifest.services@) is Ok,
        r matches Err(e) ==> validate_spec(manifest.services@) == Err::<(), Seq<char>>(e@) && final(selected)@ == old(selected)@,
        r is Ok ==> name_set(final(selected)@) == part_of_closure(*manifest, name_set(old(selected)@)),
{
    validate_dependencies(manifest)?;
    let entries = manifest.services.entries();
    let ghost sel0 = name_set(selected@);
    let ghost c = part_of_closure(*manifest, sel0);
    let ghost names0 = views(selected@);
    let ghost bound = selected@.len() + manifest.services@.len();
    let ghost universe = names0.to_set().union(keys_of(manifest.services@).to_set());
    let _ = selected.len();
    proof {
        lemma_part_of_closure(*manifest, sel0);
        crate::strmap::lemma_names_sorted_card(selected@);
        assert(sel0.subset_of(universe));
    }
    loop
        invariant
            entries@ == manifest.services@,
            keys_sorted(entries@),
            validate_spec(manifest.services@) is Ok,
            sel0 == name_set(old(selected)@),
            c == part_of_closure(*manifest, sel0),
            sel0.subset_of(c),
            part_of_closed(*manifest, c),
            names_sorted(selected@),
            sel0.subset_of(name_set(selected@)),
            name_set(selected@).subset_of(c),
            name_set(selected@).subset_of(universe),
            universe == names0.to_set().union(keys_of(manifest.services@).to_set()),
            bound == names0.len() + manifest.services@.len(),
        decreases bound - selected@.len(),
    {
        proof {
            crate::strmap::lemma_names_bound(selected@, names0, keys_of(manifest.services@));
        }
        let ghost start = selected@;
        let mut changed = false;
        let mut i: usize = 0;
        while i < entries.len()
            invariant
                entries@ == manifest.services@,
                keys_sorted(entries@),
                i <= entries@.len(),
                sel0 == name_set(old(selected)@),
                c == part_of_closure(*manifest, sel0),
                part_of_closed(*manifest, c),
                names_sorted(selected@),
                sel0.subset_of(name_set(selected@)),
                name_set(selected@).subset_of(c),
                name_set(selected@).subset_of(universe),
                universe == names0.to_set().union(keys_of(manifest.services@).to_set()),
                bound == names0.len() + manifest.services@.len(),
                start.len() <= bound,
                selected@.len() <= bound,
                changed ==> selected@.len() > start.len(),
                !changed ==> selected@ == start,
                !changed ==> forall|k: int| 0 <= k < i ==> name_set(selected@).contains((#[trigger] entries@[k]).0@) || !(exists|j: int| 0 <= j < entries@[k].1.dependencies.part_of@.len() && name_set(selected@).contains(#[trigger] entries@[k].1.dependencies.part_of@[j]@)),
            decreases entries.len() - i,
        {
            let name = &entries[i].0;
            let service = &entries[i].1;
            if !selected.contains(name.as_str()) && any_in(&service.dependencies.part_of, selected) {
                proof {
                    let j = choose|j: int| 0 <= j < service.dependencies.part_of@.len() && name_set(selected@).contains(#[trigger] service.dependencies.part_of@[j]@);
                    let o = service.dependencies.part_of@[j]@;
                    lemma_lookup_at(entries@, i as int);
                    assert(views(service.dependencies.part_of@)[j] == o);
                    assert(part_of_edge(*manifest, name@, o));
                    assert(c.contains(o));
                    assert(c.contains(name@));
                    assert(keys_of(entries@)[i as int] == name@);
                    assert(keys_of(manifest.services@).to_set().contains(name@));
                }
                selected.insert(own(name.as_str()));
                changed = true;
                proof {
                    crate::strmap::lemma_names_bound(selected@, names0, keys_of(manifest.services@));
                }
            }
            i = i + 1;
        }
        if !changed {
            proof {
                assert forall|n: Seq<char>, o: Seq<char>| name_set(selected@).contains(o) && part_of_edge(*manifest, n, o) implies name_set(selected@).contains(n) by {
                    let k = key_index(manifest.services@, n);
                    assert(0 <= k < entries@.len() && entries@[k].0@ == n);
                    lemma_lookup_at(entries@, k);
                    let pv = views(entries@[k].1.dependencies.part_of@);
                    let j = choose|j: int| 0 <= j < pv.len() && pv[j] == o;
                    assert(entries@[k].1.dependencies.part_of@[j]@ == o);
                }
                assert(c.subset_of(name_set(selected@)));
                assert(name_set(selected@) =~= c);
            }
            return Ok(());
        }
    }
}

/// The services `v` is ordered after: its `requires`, `wants` and `after`.
pub open spec fn order_deps(s: Service) -> Seq<Seq<char>> {
    views(s.dependencies.requires@) + views(s.dependencies.wants@) + views(s.dependencies.after@)
}

/// Among the selected services `sel`, `u` must come before `v`: `v`
/// requires, wants or is after `u`, or `u` is before `v`.
pub open spec fn precedes(m: Manifest, sel: Set<Seq<char>>, u: Seq<char>, v: Seq<char>) -> bool {
    &&& sel.contains(u)
    &&& sel.contains(v)
    &&& ((has_key(m.services@, v) && order_deps(lookup(m.services@, v).unwrap()).contains(u)) || (
    has_key(m.services@, u) && views(lookup(m.services@, u).unwrap().dependencies.before@).contains(
        v,
    )))
}

/// No service left in `rem` must come before `v`.
pub open spec fn ready(m: Manifest, sel: Set<Seq<char>>, rem: Seq<Seq<char>>, v: Seq<char>) -> bool {
    forall|u: Seq<char>| rem.contains(u) ==> !#[trigger] precedes(m, sel, u, v)
}

/// `rem[i]` is the first ready service of `rem`.
pub open spec fn first_ready(m: Manifest, sel: Set<Seq<char>>, rem: Seq<Seq<char>>, i: int) -> bool {
    &&& 0 <= i < rem.len()
    &&& ready(m, sel, rem, rem[i])
    &&& forall|j: int| 0 <= j < i ==> !ready(m, sel, rem, #[trigger] rem[j])
}

/// The dependency order of `rem`: repeatedly take the first service (in
/// the order of `rem`) that nothing left must precede. Gives the order
/// and what is left when no service is ready.
pub open spec fn kahn(m: Manifest, sel: Set<Seq<char>>, rem: Seq<Seq<char>>) -> (Seq<Seq<char>>, Seq<Seq<char>>)
    decreases rem.len(),
{
    if exists|i: int| first_ready(m, sel, rem, i) {
        let i = choose|i: int| first_ready(m, sel, rem, i);
        let rest = kahn(m, sel, rem.remove(i));
        (seq![rem[i]] + rest.0, rest.1)
    } else {
        (seq![], rem)
    }
}

/// `parts` joined by `sep`.
pub open spec fn join(parts: Seq<Seq<char>>, sep: Seq<char>) -> Seq<char>
    decreases parts.len(),
{
    if parts.len() == 0 {
        seq![]
    } else if parts.len() == 1 {
        parts[0]
    } else {
        join(parts.drop_last(), sep) + sep + parts.last()
    }
}

/// The message for services caught in a dependency cycle.
pub open spec fn cycle_msg(stuck: Seq<Seq<char>>) -> Seq<char> {
    "service dependency cycle detected around: "@ + join(stuck, ", "@)
}

/// `i` is the first of `names` that is not a service.
pub open spec fn first_missing_name(m: Manifest, names: Seq<Seq<char>>, i: int) -> bool {
    &&& 0 <= i < names.len()
    &&& !has_key(m.services@, names[i])
    &&& forall|j: int| 0 <= j < i ==> has_key(m.services@, #[trigger] names[j])
}

/// What `topo_sort` gives for the selected services `sel`, in name order.
pub open spec fn topo_spec(m: Manifest, sel: Seq<Seq<char>>) -> Result<Seq<Seq<char>>, Seq<char>> {
    match validate_spec(m.services@) {
        Err(e) => Err(e),
        Ok(_) => if exists|i: int| first_missing_name(m, sel, i) {
            Err(no_service_msg(sel[choose|i: int| first_missing_name(m, sel, i)]))
        } else {
            let r = kahn(m, sel.to_set(), sel);
            if r.1.len() == 0 {
                Ok(r.0)
            } else {
                Err(cycle_msg(r.1))
            }
        },
    }
}

pub proof fn lemma_first_ready_unique(m: Manifest, sel: Set<Seq<char>>, rem: Seq<Seq<char>>, i: int, j: int)
    requires
        first_ready(m, sel, rem, i),
        first_ready(m, sel, rem, j),
    ensures
        i == j,
{
}

/// `kahn` keeps every service exactly once: what it orders and what it
/// leaves together are `rem`.
pub proof fn lemma_kahn_permutes(m: Manifest, sel: Set<Seq<char>>, rem: Seq<Seq<char>>)
    requires
        rem.no_duplicates(),
    ensures
        kahn(m, sel, rem).0.len() + kahn(m, sel, rem).1.len() == rem.len(),
        (kahn(m, sel, rem).0 + kahn(m, sel, rem).1).to_set() == rem.to_set(),
        (kahn(m, sel, rem).0 + kahn(m, sel, rem).1).no_duplicates(),
    decreases rem.len(),
{
    if exists|i: int| first_ready(m, sel, rem, i) {
        let i = choose|i: int| first_ready(m, sel, rem, i);
        let r2 = rem.remove(i);
        assert(r2.no_duplicates()) by {
            assert forall|a: int, b: int| 0 <= a < r2.len() && 0 <= b < r2.len() && a != b implies r2[a] != r2[b] by {
                let a2 = if a < i { a } else { a + 1 };
                let b2 = if b < i { b } else { b + 1 };
                assert(r2[a] == rem[a2]);
                assert(r2[b] == rem[b2]);
            }
        }
        lemma_kahn_permutes(m, sel, r2);
        let rest = kahn(m, sel, r2);
        let all = seq![rem[i]] + rest.0 + rest.1;
        assert(kahn(m, sel, rem).0 + kahn(m, sel, rem).1 =~= all);
        assert(all =~= seq![rem[i]] + (rest.0 + rest.1));
        assert(!(rest.0 + rest.1).to_set().contains(rem[i])) by {
            if r2.to_set().contains(rem[i]) {
                let k = choose|k: int| 0 <= k < r2.len() && r2[k] == rem[i];
                let k2 = if k < i { k } else { k + 1 };
                assert(rem[k2] == rem[i]);
            }
        }
        assert forall|a: int, b: int| 0 <= a < all.len() && 0 <= b < all.len() && a != b implies all[a] != all[b] by {
            if a == 0 && b > 0 {
                assert((rest.0 + rest.1)[b - 1] == all[b]);
                assert((rest.0 + rest.1).to_set().contains(all[b]));
            } else if b == 0 && a > 0 {
                assert((rest.0 + rest.1)[a - 1] == all[a]);
                assert((rest.0 + rest.1).to_set().contains(all[a]));
            } else if a > 0 && b > 0 {
                assert((rest.0 + rest.1)[a - 1] == all[a]);
                assert((rest.0 + rest.1)[b - 1] == all[b]);
            }
        }
        assert(all.to_set() =~= rem.to_set()) by {
            assert forall|x: Seq<char>| all.to_set().contains(x) implies rem.to_set().contains(x) by {
                let k = choose|k: int| 0 <= k < all.len() && all[k] == x;
                if k > 0 {
                    assert((rest.0 + rest.1)[k - 1] == x);
                    assert(r2.to_set().contains(x));
                    let k2 = choose|k2: int| 0 <= k2 < r2.len() && r2[k2] == x;
                    let k3 = if k2 < i { k2 } else { k2 + 1 };
                    assert(rem[k3] == x);
                }
            }
            assert forall|x: Seq<char>| rem.to_set().contains(x) implies all.to_set().contains(x) by {
                let k = choose|k: int| 0 <= k < rem.len() && rem[k] == x;
                if k == i {
                    assert(all[0] == x);
                } else {
                    let k2 = if k < i { k } else { k - 1 };
                    assert(r2[k2] == x);
                    assert(r2.to_set().contains(x));
                    assert((rest.0 + rest.1).to_set().contains(x));
                    let k4 = choose|k4: int| 0 <= k4 < (rest.0 + rest.1).len() && (rest.0 + rest.1)[k4] == x;
                    assert(all[k4 + 1] == x);
                }
            }
        }
    } else {
        assert(kahn(m, sel, rem).0 + kahn(m, sel, rem).1 =~= rem);
    }
}

/// In the order `kahn` gives, a service that must precede another one of
/// `rem` comes earlier.
pub proof fn lemma_kahn_respects(m: Manifest, sel: Set<Seq<char>>, rem: Seq<Seq<char>>, u: Seq<char>, p: int)
    requires
        0 <= p < kahn(m, sel, rem).0.len(),
        rem.contains(u),
        precedes(m, sel, u, kahn(m, sel, rem).0[p]),
    ensures
        exists|q: int| 0 <= q < p && kahn(m, sel, rem).0[q] == u,
    decreases rem.len(),
{
    if exists|i: int| first_ready(m, sel, rem, i) {
        let i = choose|i: int| first_ready(m, sel, rem, i);
        let r2 = rem.remove(i);
        let o = kahn(m, sel, rem).0;
        let rest = kahn(m, sel, r2);
        assert(o =~= seq![rem[i]] + rest.0);
        if p == 0 {
            assert(o[0] == rem[i]);
            assert(!precedes(m, sel, u, rem[i]));
        } else {
            assert(o[p] == rest.0[p - 1]);
            if u == rem[i] {
                assert(o[0] == u);
            } else {
                let k = choose|k: int| 0 <= k < rem.len() && rem[k] == u;
                let k2 = if k < i { k } else { k - 1 };
                assert(r2[k2] == u);
                lemma_kahn_respects(m, sel, r2, u, p - 1);
                let q = choose|q: int| 0 <= q < p - 1 && rest.0[q] == u;
                assert(o[q + 1] == u);
            }
        }
    }
}

/// Builds `join(parts, sep)`.
pub fn join_strings(parts: &Vec<String>, sep: &str) -> (r: String)
    ensures
        r@ == join(views(parts@), sep@),
{
    let mut r = String::new();
    let mut i: usize = 0;
    while i < parts.len()
        invariant
            i <= parts@.len(),
            r@ == join(views(parts@).take(i as int), sep@),
        decreases parts.len() - i,
    {
        assert(views(parts@).take(i + 1).drop_last() =~= views(parts@).take(i as int));
        if i == 0 {
            r = own(parts[i].as_str());
        } else {
            r = cat3(r.as_str(), sep, parts[i].as_str());
        }
        i = i + 1;
    }
    assert(views(parts@).take(parts@.len() as int) =~= views(parts@));
    r
}

/// Whether `x` is one of `list`.
pub fn vec_has(list: &Vec<String>, x: &str) -> (r: bool)
    ensures
        r == views(list@).contains(x@),
{
    let mut j: usize = 0;
    while j < list.len()
        invariant
            j <= list@.len(),
            forall|k: int| 0 <= k < j ==> (#[trigger] list@[k])@ != x@,
        decreases list.len() - j,
    {
        if str_eq(list[j].as_str(), x) {
            assert(views(list@)[j as int] == x@);
            return true;
        }
        j = j + 1;
    }
    proof {
        if views(list@).contains(x@) {
            let k = choose|k: int| 0 <= k < views(list@).len() && views(list@)[k] == x@;
            assert(list@[k]@ == x@);
        }
    }
    false
}

/// Whether, among the selected services, `u` must come before `v`.
pub fn must_precede(manifest: &Manifest, selected: &StrSet, u: &str, v: &str) -> (r: bool)
    ensures
        r == precedes(*manifest, name_set(selected@), u@, v@),
{
    if !selected.contains(u) || !selected.contains(v) {
        return false;
    }
    let after_u = match manifest.services.get(v) {
        Some(sv) => {
            let d = &sv.dependencies;
            let r = vec_has(&d.requires, u) || vec_has(&d.wants, u) || vec_has(&d.after, u);
            proof {
                let a = views(d.requires@);
                let b = views(d.wants@);
                let c = views(d.after@);
                assert(order_deps(*sv) == a + b + c);
                if r {
                    if a.contains(u@) {
                        let k = choose|k: int| 0 <= k < a.len() && a[k] == u@;
                        assert((a + b + c)[k] == u@);
                    } else if b.contains(u@) {
                        let k = choose|k: int| 0 <= k < b.len() && b[k] == u@;
                        assert((a + b + c)[a.len() + k] == u@);
                    } else {
                        let k = choose|k: int| 0 <= k < c.len() && c[k] == u@;
                        assert((a + b + c)[a.len() + b.len() + k] == u@);
                    }
                } else if (a + b + c).contains(u@) {
                    let k = choose|k: int| 0 <= k < (a + b + c).len() && (a + b + c)[k] == u@;
                    if k < a.len() {
                        assert(a[k] == u@);
                    } else if k < a.len() + b.len() {
                        assert(b[k - a.len()] == u@);
                    } else {
                        assert(c[k - a.len() - b.len()] == u@);
                    }
                }
            }
            r
        },
        None => false,
    };
    if after_u {
        return true;
    }
    match manifest.services.get(u) {
        Some(su) => vec_has(&su.dependencies.before, v),
        None => false,
    }
}

/// Whether no service of `rem` must precede `rem[i]`.
pub fn is_ready(manifest: &Manifest, selected: &StrSet, rem: &Vec<String>, i: usize) -> (r: bool)
    requires
        i < rem@.len(),
    ensures
        r == ready(*manifest, name_set(selected@), views(rem@), rem@[i as int]@),
{
    let mut j: usize = 0;
    while j < rem.len()
        invariant
            i < rem@.len(),
            j <= rem@.len(),
            forall|k: int| 0 <= k < j ==> !precedes(*manifest, name_set(selected@), #[trigger] rem@[k]@, rem@[i as int]@),
        decreases rem.len() - j,
    {
        if must_precede(manifest, selected, rem[j].as_str(), rem[i].as_str()) {
            assert(views(rem@)[j as int] == rem@[j as int]@);
            return false;
        }
        j = j + 1;
    }
    proof {
        assert forall|u: Seq<char>| views(rem@).contains(u) implies !precedes(*manifest, name_set(selected@), u, rem@[i as int]@) by {
            let k = choose|k: int| 0 <= k < views(rem@).len() && views(rem@)[k] == u;
            assert(rem@[k]@ == u);
        }
    }
    true
}

/// The selected services in dependency order: a service comes after every
/// selected service it requires, wants or is after, and before every
/// selected service it is before; among services free to go next, the
/// smallest name goes first. Fails on an unknown dependency name anywhere
/// in the manifest, on a selected name that is not a service, and on a
/// dependency cycle.
pub fn topo_sort(manifest: &Manifest, selected: &StrSet) -> (r: Result<Vec<String>, String>)
    ensures
        r matches Ok(v) ==> topo_spec(*manifest, views(selected@)) == Ok::<Seq<Seq<char>>, Seq<char>>(views(v@)),
        r matches Err(e) ==> topo_spec(*manifest, views(selected@)) == Err::<Seq<Seq<char>>, Seq<char>>(e@),
{
    validate_dependencies(manifest)?;
    let items = selected.items();
    let mut i: usize = 0;
    while i < items.len()
        invariant
            items@ == selected@,
            validate_spec(manifest.services@) is Ok,
            i <= items@.len(),
            forall|j: int| 0 <= j < i ==> has_key(manifest.services@, #[trigger] items@[j]@),
        decreases items.len() - i,
    {
        if let Err(e) = get_service(manifest, items[i].as_str()) {
            proof {
                assert forall|j: int| 0 <= j < i implies has_key(manifest.services@, #[trigger] views(selected@)[j]) by {
                    assert(views(selected@)[j] == items@[j]@);
                }
                assert(first_missing_name(*manifest, views(selected@), i as int));
                let c = choose|k: int| first_missing_name(*manifest, views(selected@), k);
                assert(c == i as int);
            }
            return Err(e);
        }
        i = i + 1;
    }
    proof {
        if exists|k: int| first_missing_name(*manifest, views(selected@), k) {
            let k = choose|k: int| first_missing_name(*manifest, views(selected@), k);
            assert(views(selected@)[k] == items@[k]@);
        }
    }
    let ghost sel = name_set(selected@);
    let ghost full = kahn(*manifest, sel, views(selected@));
    let mut rem = clone_strings(items);
    let mut order: Vec<String> = Vec::new();
    loop
        invariant
            sel == name_set(selected@),
            full == kahn(*manifest, sel, views(selected@)),
            full.0 == views(order@) + kahn(*manifest, sel, views(rem@)).0,
            full.1 == kahn(*manifest, sel, views(rem@)).1,
        ensures
            sel == name_set(selected@),
            full == kahn(*manifest, sel, views(selected@)),
            full.0 == views(order@) + kahn(*manifest, sel, views(rem@)).0,
            full.1 == kahn(*manifest, sel, views(rem@)).1,
            !exists|j: int| first_ready(*manifest, sel, views(rem@), j),
        decreases rem@.len(),
    {
        let mut k: usize = 0;
        while k < rem.len() && !is_ready(manifest, selected, &rem, k)
            invariant
                k <= rem@.len(),
                forall|j: int| 0 <= j < k ==> !ready(*manifest, sel, views(rem@), #[trigger] views(rem@)[j]),
                sel == name_set(selected@),
            decreases rem.len() - k,
        {
            assert(views(rem@)[k as int] == rem@[k as int]@);
            k = k + 1;
        }
        if k == rem.len() {
            proof {
                assert(!exists|j: int| first_ready(*manifest, sel, views(rem@), j));
            }
            break ;
        }
        proof {
            assert(views(rem@)[k as int] == rem@[k as int]@);
            assert(first_ready(*manifest, sel, views(rem@), k as int));
            let c = choose|j: int| first_ready(*manifest, sel, views(rem@), j);
            lemma_first_ready_unique(*manifest, sel, views(rem@), k as int, c);
        }
        let ghost before = views(rem@);
        let name = rem.remove(k);
        proof {
            assert(views(rem@) =~= before.remove(k as int));
        }
        let ghost prev_order = views(order@);
        order.push(name);
        proof {
            assert(views(order@) =~= prev_order.push(before[k as int]));
            assert(views(order@) + kahn(*manifest, sel, views(rem@)).0 =~= prev_order + (seq![before[k as int]] + kahn(*manifest, sel, views(rem@)).0));
        }
    }
    proof {
        assert(kahn(*manifest, sel, views(rem@)).0 =~= Seq::<Seq<char>>::empty());
        assert(views(order@) + Seq::<Seq<char>>::empty() =~= views(order@));
    }
    if rem.len() == 0 {
        proof {
            assert(full.1 =~= views(rem@));
        }
        Ok(order)
    } else {
        let joined = join_strings(&rem, ", ");
        Err(cat("service dependency cycle detected around: ", joined.as_str()))
    }
}

/// Strictly increasing names.
pub open spec fn seq_sorted(s: Seq<Seq<char>>) -> bool {
    forall|i: int, j: int| 0 <= i < j < s.len() ==> lex_lt(#[trigger] s[i], #[trigger] s[j])
}

/// The names of a finite set in increasing order.
pub open spec fn sorted_of(x: Set<Seq<char>>) -> Seq<Seq<char>> {
    choose|s: Seq<Seq<char>>| seq_sorted(s) && s.to_set() == x
}

/// Two increasing sequences with the same names are equal.
pub proof fn lemma_sorted_unique(a: Seq<Seq<char>>, b: Seq<Seq<char>>)
    requires
        seq_sorted(a),
        seq_sorted(b),
        a.to_set() == b.to_set(),
    ensures
        a == b,
    decreases a.len(),
{
    if a.len() == 0 {
        if b.len() > 0 {
            assert(b.to_set().contains(b[0]));
        }
        assert(a =~= b);
    } else if b.len() == 0 {
        assert(a.to_set().contains(a[0]));
    } else {
        assert(b.to_set().contains(a[0]));
        assert(a.to_set().contains(b[0]));
        let i = choose|i: int| 0 <= i < b.len() && b[i] == a[0];
        let j = choose|j: int| 0 <= j < a.len() && a[j] == b[0];
        if a[0] != b[0] {
            assert(i > 0 && j > 0);
            assert(lex_lt(b[0], b[i]));
            assert(lex_lt(a[0], a[j]));
            crate::text::lemma_lex_lt_asymmetric(b[0], a[0]);
        }
        assert(a.drop_first().to_set() =~= b.drop_first().to_set()) by {
            assert forall|x: Seq<char>| a.drop_first().to_set().contains(x) implies b.drop_first().to_set().contains(x) by {
                let k = choose|k: int| 0 <= k < a.drop_first().len() && a.drop_first()[k] == x;
                assert(lex_lt(a[0], a[k + 1]));
                crate::text::lemma_lex_lt_irreflexive(a[0]);
                assert(b.to_set().contains(x));
                let k2 = choose|k2: int| 0 <= k2 < b.len() && b[k2] == x;
                assert(k2 > 0);
                assert(b.drop_first()[k2 - 1] == x);
            }
            assert forall|x: Seq<char>| b.drop_first().to_set().contains(x) implies a.drop_first().to_set().contains(x) by {
                let k = choose|k: int| 0 <= k < b.drop_first().len() && b.drop_first()[k] == x;
                assert(lex_lt(b[0], b[k + 1]));
                crate::text::lemma_lex_lt_irreflexive(b[0]);
                assert(a.to_set().contains(x));
                let k2 = choose|k2: int| 0 <= k2 < a.len() && a[k2] == x;
                assert(k2 > 0);
                assert(a.drop_first()[k2 - 1] == x);
            }
        }
        lemma_sorted_unique(a.drop_first(), b.drop_first());
        assert(a =~= b) by {
            assert forall|k: int| 0 <= k < a.len() implies a[k] == b[k] by {
                if k > 0 {
                    assert(a[k] == a.drop_first()[k - 1]);
                    assert(b[k] == b.drop_first()[k - 1]);
                }
            }
        }
    }
}

/// The names of a set of strings, in order, are `sorted_of` its name set.
pub proof fn lemma_sorted_of_set(s: Seq<String>)
    requires
        names_sorted(s),
    ensures
        sorted_of(name_set(s)) == views(s),
{
    assert(seq_sorted(views(s)));
    let t = sorted_of(name_set(s));
    assert(seq_sorted(t) && t.to_set() == name_set(s));
    lemma_sorted_unique(t, views(s));
}

/// The names an operation starts from: all services when no target is
/// given, else the targets, each of which must be a service.
pub open spec fn initial_spec(m: Manifest, targets: Seq<String>) -> Result<Set<Seq<char>>, Seq<char>> {
    if targets.len() == 0 {
        Ok(service_names(m))
    } else if exists|i: int| first_missing_target(m, targets, i) {
        Err(no_service_msg(targets[choose|i: int| first_missing_target(m, targets, i)]@))
    } else {
        Ok(views(targets).to_set())
    }
}

/// The services named by `names`, in that order.
pub open spec fn in_order(m: Manifest, names: Seq<Seq<char>>) -> Seq<(Seq<char>, Service)> {
    names.map_values(|n: Seq<char>| (n, lookup(m.services@, n).unwrap()))
}

/// The view of an ordering result.
pub open spec fn order_view(r: Result<Vec<(&str, &Service)>, String>) -> Result<Seq<(Seq<char>, Service)>, Seq<char>> {
    match r {
        Ok(v) => Ok(pair_views(v@)),
        Err(e) => Err(e@),
    }
}

/// What `activation_order` gives: the targets with everything they
/// require or want, in dependency order.
pub open spec fn activation_result(m: Manifest, targets: Seq<String>, r: Result<Seq<(Seq<char>, Service)>, Seq<char>>) -> bool {
    match initial_spec(m, targets) {
        Err(e) => r == Err::<Seq<(Seq<char>, Service)>, Seq<char>>(e),
        Ok(sel0) => {
            let c = act_closure(m, sel0);
            if !c.subset_of(service_names(m)) {
                expand_spec(m, sorted_of(sel0)) matches Err(e) && r == Err::<Seq<(Seq<char>, Service)>, Seq<char>>(e)
            } else {
                match topo_spec(m, sorted_of(c)) {
                    Ok(o) => r == Ok::<Seq<(Seq<char>, Service)>, Seq<char>>(in_order(m, o)),
                    Err(e) => r == Err::<Seq<(Seq<char>, Service)>, Seq<char>>(e),
                }
            }
        },
    }
}

/// What `deactivation_order` gives: the targets with every service that
/// is part of them, in reverse dependency order.
pub open spec fn deactivation_result(m: Manifest, targets: Seq<String>, r: Result<Seq<(Seq<char>, Service)>, Seq<char>>) -> bool {
    match initial_spec(m, targets) {
        Err(e) => r == Err::<Seq<(Seq<char>, Service)>, Seq<char>>(e),
        Ok(sel0) => match validate_spec(m.services@) {
            Err(e) => r == Err::<Seq<(Seq<char>, Service)>, Seq<char>>(e),
            Ok(_) => match topo_spec(m, sorted_of(part_of_closure(m, sel0))) {
                Ok(o) => r == Ok::<Seq<(Seq<char>, Service)>, Seq<char>>(in_order(m, o.reverse())),
                Err(e) => r == Err::<Seq<(Seq<char>, Service)>, Seq<char>>(e),
            },
        },
    }
}

pub proof fn lemma_initial_set(m: Manifest, targets: Seq<String>, r: Result<StrSet, String>)
    requires
        targets.len() == 0 ==> (r matches Ok(s) && name_set(s@) == service_names(m)),
        targets.len() > 0 ==> (r is Err <==> exists|i: int| first_missing_target(m, targets, i)),
        r matches Err(e) ==> exists|i: int| first_missing_target(m, targets, i) && e@ == no_service_msg(targets[i]@),
        targets.len() > 0 ==> (r matches Ok(s) ==> name_set(s@) == views(targets).to_set()),
    ensures
        r matches Ok(s) ==> initial_spec(m, targets) == Ok::<Set<Seq<char>>, Seq<char>>(name_set(s@)),
        r matches Err(e) ==> initial_spec(m, targets) == Err::<Set<Seq<char>>, Seq<char>>(e@),
{
    if r is Err {
        let e = r->Err_0;
        let i = choose|i: int| first_missing_target(m, targets, i) && e@ == no_service_msg(targets[i]@);
        let c = choose|i: int| first_missing_target(m, targets, i);
        assert(c == i) by {
            if c < i {
                assert(has_key(m.services@, targets[c]@));
            } else if i < c {
                assert(has_key(m.services@, targets[i]@));
            }
        }
    }
}

/// Every name of a successful dependency order is a service.
pub proof fn lemma_topo_names_are_services(m: Manifest, sel: Seq<Seq<char>>)
    requires
        sel.no_duplicates(),
        topo_spec(m, sel) is Ok,
    ensures
        forall|i: int| 0 <= i < topo_spec(m, sel)->Ok_0.len() ==> has_key(m.services@, #[trigger] topo_spec(m, sel)->Ok_0[i]),
        topo_spec(m, sel)->Ok_0.to_set() == sel.to_set(),
        topo_spec(m, sel)->Ok_0.no_duplicates(),
        topo_spec(m, sel)->Ok_0.len() == sel.len(),
{
    let r = kahn(m, sel.to_set(), sel);
    lemma_kahn_permutes(m, sel.to_set(), sel);
    assert(r.0 + r.1 =~= r.0);
    let o = topo_spec(m, sel)->Ok_0;
    assert forall|i: int| 0 <= i < o.len() implies has_key(m.services@, #[trigger] o[i]) by {
        assert(o.to_set().contains(o[i]));
        let k = choose|k: int| 0 <= k < sel.len() && sel[k] == o[i];
        if !has_key(m.services@, sel[k]) {
            let mut j = k;
            assert(exists|j: int| 0 <= j < sel.len() && !has_key(m.services@, sel[j]));
            lemma_first_missing_exists(m, sel, k);
        }
    }
}

/// A name that is not a service gives a first such name.
pub proof fn lemma_first_missing_exists(m: Manifest, sel: Seq<Seq<char>>, k: int)
    requires
        0 <= k < sel.len(),
        !has_key(m.services@, sel[k]),
    ensures
        exists|i: int| first_missing_name(m, sel, i),
    decreases k,
{
    if forall|j: int| 0 <= j < k ==> has_key(m.services@, #[trigger] sel[j]) {
        assert(first_missing_name(m, sel, k));
    } else {
        let j = choose|j: int| 0 <= j < k && !has_key(m.services@, #[trigger] sel[j]);
        lemma_first_missing_exists(m, sel, j);
    }
}

/// The services of `names`, looked up in order.
pub fn lookup_in_order<'a>(manifest: &'a Manifest, names: Vec<String>) -> (r: Vec<(&'a str, &'a Service)>)
    requires
        forall|i: int| 0 <= i < names@.len() ==> has_key(manifest.services@, #[trigger] names@[i]@),
    ensures
        pair_views(r@) == in_order(*manifest, views(names@)),
{
    let r = names_to_services(manifest, names);
    proof {
        if exists|i: int| first_missing_target(*manifest, names@, i) {
            let i = choose|i: int| first_missing_target(*manifest, names@, i);
            assert(has_key(manifest.services@, names@[i]@));
        }
    }
    let v = r.unwrap();
    assert(pair_views(v@) =~= in_order(*manifest, views(names@)));
    v
}

/// The order in which `up` starts services: the targets (all services
/// when none is given) with everything they require or want, in
/// dependency order.
pub fn activation_order<'a>(manifest: &'a Manifest, targets: &[String]) -> (r: Result<Vec<(&'a str, &'a Service)>, String>)
    ensures
        activation_result(*manifest, targets@, order_view(r)),
{
    let init = initial_set(manifest, targets);
    proof {
        lemma_initial_set(*manifest, targets@, init);
    }
    let mut selected = init?;
    let ghost sel0 = name_set(selected@);
    let _ = selected.len();
    proof {
        lemma_sorted_of_set(selected@);
    }
    let expanded = expand_activation_dependencies(manifest, &mut selected);
    if let Err(e) = expanded {
        return Err(e);
    }
    let _ = selected.len();
    proof {
        lemma_sorted_of_set(selected@);
        crate::strmap::lemma_names_sorted_card(selected@);
    }
    let names = topo_sort(manifest, &selected)?;
    proof {
        lemma_topo_names_are_services(*manifest, views(selected@));
        assert forall|i: int| 0 <= i < names@.len() implies has_key(manifest.services@, #[trigger] names@[i]@) by {
            assert(views(names@)[i] == names@[i]@);
        }
    }
    Ok(lookup_in_order(manifest, names))
}

/// The order in which `down` stops services: the targets (all services
/// when none is given) with every service that is part of them, in
/// reverse dependency order.
pub fn deactivation_order<'a>(manifest: &'a Manifest, targets: &[String]) -> (r: Result<Vec<(&'a str, &'a Service)>, String>)
    ensures
        deactivation_result(*manifest, targets@, order_view(r)),
{
    let init = initial_set(manifest, targets);
    proof {
        lemma_initial_set(*manifest, targets@, init);
    }
    let mut selected = init?;
    expand_part_of_dependents(manifest, &mut selected)?;
    let _ = selected.len();
    proof {
        lemma_sorted_of_set(selected@);
        crate::strmap::lemma_names_sorted_card(selected@);
    }
    let mut names = topo_sort(manifest, &selected)?;
    proof {
        lemma_topo_names_are_services(*manifest, views(selected@));
    }
    let ghost fwd = views(names@);
    names = reversed(names);
    proof {
        assert(fwd == topo_spec(*manifest, views(selected@))->Ok_0);
        assert(views(names@) == fwd.reverse());
        assert(fwd.reverse().len() == fwd.len());
        assert(names@.len() == fwd.len());
        assert forall|i: int| 0 <= i < names@.len() implies has_key(manifest.services@, #[trigger] names@[i]@) by {
            assert(views(names@)[i] == names@[i]@);
            assert(fwd.len() > 0);
            assert(fwd.reverse()[i] == fwd[fwd.len() - 1 - i]);
            let k = fwd.len() - 1 - i;
            assert(has_key(manifest.services@, topo_spec(*manifest, views(selected@))->Ok_0[k]));
        }
    }
    Ok(lookup_in_order(manifest, names))
}

/// `v` in reverse order.
pub fn reversed(v: Vec<String>) -> (r: Vec<String>)
    ensures
        views(r@) == views(v@).reverse(),
{
    let mut v = v;
    let ghost orig = views(v@);
    let mut r: Vec<String> = Vec::new();
    while v.len() > 0
        invariant
            views(v@) == orig.take(v@.len() as int),
            v@.len() <= orig.len(),
            views(r@) == orig.skip(v@.len() as int).reverse(),
        decreases v@.len(),
    {
        let ghost before = v@;
        let x = v.pop().unwrap();
        let ghost prev = r@;
        r.push(x);
        proof {
            assert(views(before)[v@.len() as int] == x@);
            assert(orig.take(before.len() as int)[v@.len() as int] == orig[v@.len() as int]);
            assert(orig[v@.len() as int] == x@);
            assert(views(v@) =~= orig.take(v@.len() as int));
            assert(views(r@) =~= views(prev).push(x@));
            assert(orig.skip(v@.len() as int) =~= seq![x@] + orig.skip(v@.len() as int + 1));
            assert(views(r@) =~= orig.skip(v@.len() as int).reverse());
        }
    }
    assert(orig.skip(0) =~= orig);
    r
}

/// The services `restart` acts on: the targets (all services when none is
/// given) with every service that is part of them.
pub fn restart_set(manifest: &Manifest, targets: &[String]) -> (r: Result<StrSet, String>)
    ensures
        r matches Ok(s) ==> (initial_spec(*manifest, targets@) matches Ok(sel0) && validate_spec(manifest.services@) is Ok && name_set(s@) == part_of_closure(*manifest, sel0)),
        r matches Err(e) ==> (initial_spec(*manifest, targets@) == Err::<Set<Seq<char>>, Seq<char>>(e@) || (initial_spec(*manifest, targets@) is Ok && validate_spec(manifest.services@) == Err::<(), Seq<char>>(e@))),
{
    let init = initial_set(manifest, targets);
    proof {
        lemma_initial_set(*manifest, targets@, init);
    }
    let mut selected = init?;
    expand_part_of_dependents(manifest, &mut selected)?;
    Ok(selected)
}

/// Law: a successful dependency order holds each selected service once,
/// and a service that must come before another does come before it.
pub proof fn lemma_topo_is_dependency_order(m: Manifest, sel: Seq<Seq<char>>, o: Seq<Seq<char>>)
    requires
        sel.no_duplicates(),
        topo_spec(m, sel) == Ok::<Seq<Seq<char>>, Seq<char>>(o),
    ensures
        o.to_set() == sel.to_set(),
        o.no_duplicates(),
        o.len() == sel.len(),
        forall|p: int, q: int| 0 <= p < o.len() && 0 <= q < o.len() && #[trigger] precedes(m, sel.to_set(), o[q], o[p]) ==> q < p,
{
    lemma_topo_names_are_services(m, sel);
    let k = kahn(m, sel.to_set(), sel);
    assert(o == k.0);
    assert forall|p: int, q: int| 0 <= p < o.len() && 0 <= q < o.len() && #[trigger] precedes(m, sel.to_set(), o[q], o[p]) implies q < p by {
        assert(o.to_set().contains(o[q]));
        let k2 = choose|k2: int| 0 <= k2 < sel.len() && sel[k2] == o[q];
        assert(sel.contains(o[q]));
        lemma_kahn_respects(m, sel.to_set(), sel, o[q], p);
        let q2 = choose|q2: int| 0 <= q2 < p && o[q2] == o[q];
        assert(q2 == q);
    }
}

/// Law: services that must precede one another in a cycle are refused.
pub proof fn lemma_cycle_rejected(m: Manifest, sel: Seq<Seq<char>>, cycle: Seq<Seq<char>>)
    requires
        sel.no_duplicates(),
        cycle.len() > 0,
        forall|k: int| 0 <= k < cycle.len() - 1 ==> precedes(m, sel.to_set(), #[trigger] cycle[k], cycle[k + 1]),
        precedes(m, sel.to_set(), cycle.last(), cycle[0]),
    ensures
        topo_spec(m, sel) is Err,
{
    if topo_spec(m, sel) is Ok {
        let o = topo_spec(m, sel)->Ok_0;
        lemma_topo_is_dependency_order(m, sel, o);
        let idx = |x: Seq<char>| choose|i: int| 0 <= i < o.len() && o[i] == x;
        assert forall|k: int| 0 <= k < cycle.len() implies 0 <= #[trigger] idx(cycle[k]) < o.len() && o[idx(cycle[k])] == cycle[k] by {
            let x = cycle[k];
            if k < cycle.len() - 1 {
                assert(precedes(m, sel.to_set(), cycle[k], cycle[k + 1]));
            } else {
                assert(precedes(m, sel.to_set(), cycle.last(), cycle[0]));
            }
            assert(sel.to_set().contains(x));
            assert(o.to_set().contains(x));
        }
        assert forall|k: int| 0 <= k < cycle.len() - 1 implies idx(cycle[k]) < idx(#[trigger] cycle[k + 1]) by {
            assert(precedes(m, sel.to_set(), cycle[k], cycle[k + 1]));
            assert(0 <= idx(cycle[k]) < o.len());
            assert(0 <= idx(cycle[k + 1]) < o.len());
            assert(precedes(m, sel.to_set(), o[idx(cycle[k])], o[idx(cycle[k + 1])]));
        }
        lemma_chain_increases(cycle, idx, cycle.len() - 1);
        assert(0 <= idx(cycle.last()) < o.len());
        assert(0 <= idx(cycle[0]) < o.len());
        assert(precedes(m, sel.to_set(), o[idx(cycle.last())], o[idx(cycle[0])]));
    }
}

/// Along a chain whose positions increase step by step, they increase.
pub proof fn lemma_chain_increases(c: Seq<Seq<char>>, idx: spec_fn(Seq<char>) -> int, k: int)
    requires
        0 <= k < c.len(),
        forall|j: int| 0 <= j < c.len() - 1 ==> idx(c[j]) < idx(#[trigger] c[j + 1]),
    ensures
        idx(c[0]) <= idx(c[k]),
        k > 0 ==> idx(c[0]) < idx(c[k]),
    decreases k,
{
    if k > 0 {
        lemma_chain_increases(c, idx, k - 1);
        let j = k - 1;
        assert(idx(c[j]) < idx(c[j + 1]));
    }
}

/// Some service of `order` is named `n`.
pub open spec fn appears(order: Seq<(Seq<char>, Service)>, n: Seq<char>) -> bool {
    exists|q: int| 0 <= q < order.len() && #[trigger] order[q].0 == n
}

/// Law: `up` starts every service after everything it requires or wants,
/// and starts every target.
pub proof fn lemma_activation_dependencies_first(m: Manifest, targets: Seq<String>, order: Seq<(Seq<char>, Service)>)
    requires
        activation_result(m, targets, Ok::<Seq<(Seq<char>, Service)>, Seq<char>>(order)),
    ensures
        forall|p: int, d: Seq<char>| 0 <= p < order.len() && #[trigger] act_deps(order[p].1).contains(d) ==> exists|q: int| 0 <= q < p && #[trigger] order[q].0 == d,
        forall|i: int| 0 <= i < targets.len() ==> appears(order, #[trigger] targets[i]@),
{
    let sel0 = initial_spec(m, targets)->Ok_0;
    let c = act_closure(m, sel0);
    lemma_act_closure(m, sel0);
    let ss = sorted_of(c);
    lemma_sorted_exists(c);
    let o = topo_spec(m, ss)->Ok_0;
    assert(ss.no_duplicates()) by {
        lemma_sorted_no_dup(ss);
    }
    lemma_topo_is_dependency_order(m, ss, o);
    lemma_topo_names_are_services(m, ss);
    assert(order == in_order(m, o));
    assert forall|p: int, d: Seq<char>| 0 <= p < order.len() && #[trigger] act_deps(order[p].1).contains(d) implies exists|q: int| 0 <= q < order.len() && q < p && #[trigger] order[q].0 == d by {
        let n = o[p];
        assert(order[p] == (n, lookup(m.services@, n).unwrap()));
        assert(has_key(m.services@, n));
        assert(o.to_set().contains(n));
        assert(c.contains(n));
        assert(act_edge(m, n, d));
        assert(c.contains(d));
        assert(ss.to_set().contains(d));
        assert(o.to_set().contains(d));
        let q = choose|q: int| 0 <= q < o.len() && o[q] == d;
        let ad = act_deps(lookup(m.services@, n).unwrap());
        let k = choose|k: int| 0 <= k < ad.len() && ad[k] == d;
        let sv = lookup(m.services@, n).unwrap();
        let rq = views(sv.dependencies.requires@);
        let wt = views(sv.dependencies.wants@);
        if k < rq.len() {
            assert(rq[k] == d);
            assert(order_deps(sv)[k] == d);
        } else {
            assert(wt[k - rq.len()] == d);
            assert(order_deps(sv)[k] == d);
        }
        assert(order_deps(sv).contains(d));
        assert(precedes(m, ss.to_set(), o[q], o[p]));
        assert(order[q].0 == d);
    }
    assert forall|i: int| 0 <= i < targets.len() implies appears(order, #[trigger] targets[i]@) by {
        assert(views(targets)[i] == targets[i]@);
        assert(targets.len() > 0);
        assert(sel0 == views(targets).to_set());
        assert(sel0.contains(targets[i]@));
        assert(c.contains(targets[i]@));
        assert(ss.to_set().contains(targets[i]@));
        assert(o.to_set().contains(targets[i]@));
        let q = choose|q: int| 0 <= q < o.len() && o[q] == targets[i]@;
        assert(order[q].0 == targets[i]@);
    }
}

/// Every finite set has an increasing enumeration.
pub proof fn lemma_sorted_exists(x: Set<Seq<char>>)
    requires
        x.finite(),
    ensures
        seq_sorted(sorted_of(x)),
        sorted_of(x).to_set() == x,
    decreases x.len(),
{
    if x.len() == 0 {
        assert(x =~= Set::<Seq<char>>::empty());
        let e = Seq::<Seq<char>>::empty();
        assert(e.to_set() =~= x);
        assert(seq_sorted(e));
    } else {
        let a = x.choose();
        let y = x.remove(a);
        let mx = lemma_set_max(x);
        let rest = x.remove(mx);
        lemma_sorted_exists(rest);
        let s = sorted_of(rest).push(mx);
        assert(s.to_set() =~= x) by {
            sorted_of(rest).lemma_push_to_set_commute(mx);
        }
        assert forall|i: int, j: int| 0 <= i < j < s.len() implies lex_lt(#[trigger] s[i], #[trigger] s[j]) by {
            if j == s.len() - 1 {
                assert(rest.contains(s[i])) by {
                    assert(sorted_of(rest).to_set().contains(sorted_of(rest)[i]));
                }
            } else {
                assert(s[i] == sorted_of(rest)[i]);
                assert(s[j] == sorted_of(rest)[j]);
            }
        }
    }
}

/// A nonempty finite set of names has a largest element.
pub proof fn lemma_set_max(x: Set<Seq<char>>) -> (mx: Seq<char>)
    requires
        x.finite(),
        x.len() > 0,
    ensures
        x.contains(mx),
        forall|y: Seq<char>| x.contains(y) && y != mx ==> lex_lt(y, mx),
    decreases x.len(),
{
    let a = x.choose();
    let rest = x.remove(a);
    if rest.len() == 0 {
        assert forall|y: Seq<char>| x.contains(y) && y != a implies lex_lt(y, a) by {
            assert(rest.contains(y));
        }
        a
    } else {
        let m2 = lemma_set_max(rest);
        if lex_lt(a, m2) {
            assert forall|y: Seq<char>| x.contains(y) && y != m2 implies lex_lt(y, m2) by {
                if y != a {
                    assert(rest.contains(y));
                }
            }
            m2
        } else {
            crate::text::lemma_lex_lt_total(a, m2);
            assert forall|y: Seq<char>| x.contains(y) && y != a implies lex_lt(y, a) by {
                if y != m2 {
                    assert(rest.contains(y));
                    crate::text::lemma_lex_lt_transitive(y, m2, a);
                }
            }
            a
        }
    }
}

/// An increasing sequence holds each name once.
pub proof fn lemma_sorted_no_dup(s: Seq<Seq<char>>)
    requires
        seq_sorted(s),
    ensures
        s.no_duplicates(),
{
    assert forall|i: int, j: int| 0 <= i < s.len() && 0 <= j < s.len() && i != j implies s[i] != s[j] by {
        if i < j {
            assert(lex_lt(s[i], s[j]));
            crate::text::lemma_lex_lt_irreflexive(s[i]);
        } else {
            assert(lex_lt(s[j], s[i]));
            crate::text::lemma_lex_lt_irreflexive(s[j]);
        }
    }
}

/// The names of an order.
pub open spec fn order_names(order: Seq<(Seq<char>, Service)>) -> Seq<Seq<char>> {
    order.map_values(|e: (Seq<char>, Service)| e.0)
}

/// Law: `down` stops every target and every service that is part of a
/// stopped service, and stops a service before any service it had to
/// start after.
pub proof fn lemma_deactivation_dependents_first(m: Manifest, targets: Seq<String>, order: Seq<(Seq<char>, Service)>)
    requires
        deactivation_result(m, targets, Ok::<Seq<(Seq<char>, Service)>, Seq<char>>(order)),
    ensures
        forall|i: int| 0 <= i < targets.len() ==> appears(order, #[trigger] targets[i]@),
        forall|p: int, n: Seq<char>| 0 <= p < order.len() && #[trigger] part_of_edge(m, n, order[p].0) ==> appears(order, n),
        forall|p: int, q: int| 0 <= p < order.len() && 0 <= q < order.len() && #[trigger] precedes(m, order_names(order).to_set(), order[q].0, order[p].0) ==> p < q,
{
    let sel0 = initial_spec(m, targets)->Ok_0;
    let c = part_of_closure(m, sel0);
    lemma_part_of_closure(m, sel0);
    let ss = sorted_of(c);
    assert(c.finite()) by {
        lemma_part_of_closure_finite(m, sel0);
    }
    lemma_sorted_exists(c);
    lemma_sorted_no_dup(ss);
    let o = topo_spec(m, ss)->Ok_0;
    lemma_topo_is_dependency_order(m, ss, o);
    let ro = o.reverse();
    assert(order == in_order(m, ro));
    assert(ro.len() == o.len());
    assert forall|k: int| 0 <= k < order.len() implies #[trigger] order[k].0 == o[o.len() - 1 - k] by {
        assert(ro[k] == o[o.len() - 1 - k]);
    }
    assert(order_names(order).to_set() =~= c) by {
        assert forall|x: Seq<char>| order_names(order).to_set().contains(x) implies c.contains(x) by {
            let k = choose|k: int| 0 <= k < order_names(order).len() && order_names(order)[k] == x;
            assert(order[k].0 == x);
            assert(o.to_set().contains(o[o.len() - 1 - k]));
        }
        assert forall|x: Seq<char>| c.contains(x) implies order_names(order).to_set().contains(x) by {
            assert(o.to_set().contains(x));
            let k = choose|k: int| 0 <= k < o.len() && o[k] == x;
            let p = o.len() - 1 - k;
            assert(order[p].0 == o[o.len() - 1 - p]);
            assert(order_names(order)[p] == x);
        }
    }
    assert forall|i: int| 0 <= i < targets.len() implies appears(order, #[trigger] targets[i]@) by {
        assert(views(targets)[i] == targets[i]@);
        assert(sel0 == views(targets).to_set());
        assert(c.contains(targets[i]@));
        assert(order_names(order).to_set().contains(targets[i]@));
        let k = choose|k: int| 0 <= k < order_names(order).len() && order_names(order)[k] == targets[i]@;
        assert(order[k].0 == targets[i]@);
    }
    assert forall|p: int, n: Seq<char>| 0 <= p < order.len() && #[trigger] part_of_edge(m, n, order[p].0) implies appears(order, n) by {
        assert(order_names(order)[p] == order[p].0);
        assert(c.contains(order[p].0));
        assert(c.contains(n));
        assert(order_names(order).to_set().contains(n));
        let k = choose|k: int| 0 <= k < order_names(order).len() && order_names(order)[k] == n;
        assert(order[k].0 == n);
    }
    assert forall|p: int, q: int| 0 <= p < order.len() && 0 <= q < order.len() && #[trigger] precedes(m, order_names(order).to_set(), order[q].0, order[p].0) implies p < q by {
        let a = o.len() - 1 - q;
        let b = o.len() - 1 - p;
        assert(order[q].0 == o[a]);
        assert(order[p].0 == o[b]);
        assert(ss.to_set() == c);
        assert(precedes(m, ss.to_set(), o[a], o[b]));
    }
}

/// Part-of closures of finite sets are finite: they only add services.
pub proof fn lemma_part_of_closure_finite(m: Manifest, sel: Set<Seq<char>>)
    requires
        sel.finite(),
    ensures
        part_of_closure(m, sel).finite(),
{
    let x = sel.union(service_names(m));
    assert(part_of_closed(m, x)) by {
        assert forall|n: Seq<char>, o: Seq<char>| x.contains(o) && part_of_edge(m, n, o) implies x.contains(n) by {
            lemma_keys_has_key(m.services@, n);
        }
    }
    lemma_part_of_closure(m, sel);
    vstd::seq_lib::seq_to_set_is_finite(keys_of(m.services@));
    vstd::set_lib::lemma_len_subset(part_of_closure(m, sel), x);
}

} // verus!
