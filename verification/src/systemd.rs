//! What `up`, `down` and `restart` do to the services of a set, decided
//! before any unit is touched.
use vstd::prelude::*;

use crate::manifest::{pair_views, Manifest, Service};
use crate::ordering::{
    act_closure, activation_order, expand_spec, activation_result, deactivation_order,
    deactivation_result, expand_activation_dependencies, in_order, lemma_topo_names_are_services,
    lookup_in_order, order_view, reversed, restart_set, service_names, topo_sort, topo_spec,
};
use crate::strmap::{has_key, name_set, views, StrSet};

verus! {

/// The services `up` starts, in the order it starts them: the targets
/// (all services when none is given) and everything they require or want,
/// each after what it depends on.
pub fn up<'a>(manifest: &'a Manifest, targets: &[String]) -> (r: Result<Vec<(&'a str, &'a Service)>, String>)
    ensures
        activation_result(*manifest, targets@, order_view(r)),
{
    activation_order(manifest, targets)
}

/// The services `down` stops, in the order it stops them: the targets
/// (all services when none is given) and every service that is part of
/// them, each before what it depends on.
pub fn down<'a>(manifest: &'a Manifest, targets: &[String]) -> (r: Result<Vec<(&'a str, &'a Service)>, String>)
    ensures
        deactivation_result(*manifest, targets@, order_view(r)),
{
    deactivation_order(manifest, targets)
}

/// The first half of a restart: the services to restart, and the order in
/// which they are stopped.
pub struct RestartPlan<'a> {
    pub services: StrSet,
    pub stop: Vec<(&'a str, &'a Service)>,
}

/// The services `restart` acts on (the targets, or all services, with
/// every service that is part of them) and the order in which it stops
/// them, each before what it depends on.
pub fn restart<'a>(manifest: &'a Manifest, targets: &[String]) -> (r: Result<RestartPlan<'a>, String>)
    ensures
        r matches Ok(plan) ==> (crate::ordering::initial_spec(*manifest, targets@) matches Ok(sel0)
            && name_set(plan.services@) == crate::ordering::part_of_closure(*manifest, sel0)),
        r matches Ok(plan) ==> (topo_spec(*manifest, views(plan.services@)) matches Ok(o) && pair_views(plan.stop@)
            == in_order(*manifest, o.reverse())),
        r matches Err(e) ==> (crate::ordering::initial_spec(*manifest, targets@) == Err::<Set<Seq<char>>, Seq<char>>(e@)
            || (crate::ordering::initial_spec(*manifest, targets@) is Ok
            && crate::ordering::validate_spec(manifest.services@) == Err::<(), Seq<char>>(e@))
            || topo_spec(*manifest, crate::ordering::sorted_of(crate::ordering::part_of_closure(
            *manifest,
            crate::ordering::initial_spec(*manifest, targets@)->Ok_0,
        ))) == Err::<Seq<Seq<char>>, Seq<char>>(e@)),
{
    let services = restart_set(manifest, targets)?;
    let _ = services.len();
    proof {
        crate::ordering::lemma_sorted_of_set(services@);
        crate::strmap::lemma_names_sorted_card(services@);
    }
    let names = topo_sort(manifest, &services)?;
    proof {
        lemma_topo_names_are_services(*manifest, views(services@));
    }
    let ghost fwd = views(names@);
    let names = reversed(names);
    proof {
        assert(views(names@) == fwd.reverse());
        assert(fwd.reverse().len() == fwd.len());
        assert forall|i: int| 0 <= i < names@.len() implies has_key(manifest.services@, #[trigger] names@[i]@) by {
            assert(views(names@)[i] == names@[i]@);
            assert(fwd.reverse()[i] == fwd[fwd.len() - 1 - i]);
            let k = fwd.len() - 1 - i;
            assert(has_key(manifest.services@, topo_spec(*manifest, views(services@))->Ok_0[k]));
        }
    }
    let stop = lookup_in_order(manifest, names);
    Ok(RestartPlan { services, stop })
}

/// The second half of a restart: the restarted services and everything
/// they require or want, in the order they start.
pub fn restart_start_order<'a>(manifest: &'a Manifest, services: StrSet) -> (r: Result<Vec<(&'a str, &'a Service)>, String>)
    ensures
        ({
            let c = act_closure(*manifest, name_set(services@));
            if !c.subset_of(service_names(*manifest)) {
                expand_spec(*manifest, views(services@)) matches Err(e) && r matches Err(x) && x@ == e
            } else {
                match topo_spec(*manifest, crate::ordering::sorted_of(c)) {
                    Ok(o) => r matches Ok(v) && pair_views(v@) == in_order(*manifest, o),
                    Err(e) => r matches Err(x) && x@ == e,
                }
            }
        }),
{
    let mut start = services;
    let expanded = expand_activation_dependencies(manifest, &mut start);
    if let Err(e) = expanded {
        return Err(e);
    }
    let _ = start.len();
    proof {
        crate::ordering::lemma_sorted_of_set(start@);
        crate::strmap::lemma_names_sorted_card(start@);
    }
    let names = topo_sort(manifest, &start)?;
    proof {
        lemma_topo_names_are_services(*manifest, views(start@));
        assert forall|i: int| 0 <= i < names@.len() implies has_key(manifest.services@, #[trigger] names@[i]@) by {
            assert(views(names@)[i] == names@[i]@);
        }
    }
    Ok(lookup_in_order(manifest, names))
}

} // verus!
