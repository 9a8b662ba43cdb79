//! The text screen of the status view: the set, its services with their
//! units, runtime directories and configs, and its leases, in aligned
//! columns.
use vstd::prelude::*;

use crate::control::UnitStatus;
use crate::leases::Lease;
use crate::manifest::{Dependencies, Manifest};
use crate::status::{ActivationStatus, ConfigState, ServiceStatus, SetStatus};
use crate::strmap::{lookup, views};
use crate::text::{cat3, chars_of, decimal, decimal_string, own, push_char, push_str, string_of};
use crate::units::suffix_spec;

verus! {

/// `n` spaces.
pub open spec fn spaces(n: nat) -> Seq<char> {
    Seq::new(n, |i: int| ' ')
}

/// `s` padded with spaces on the right to `w` characters.
pub open spec fn pad_spec(s: Seq<char>, w: nat) -> Seq<char> {
    if s.len() >= w {
        s
    } else {
        s + spaces((w - s.len()) as nat)
    }
}

/// `v` cut to at most `n` characters, a cut one ending in `~`.
pub open spec fn short_spec(v: Seq<char>, n: nat) -> Seq<char> {
    if v.len() <= n {
        v
    } else {
        v.take(if n > 0 {
            n - 1
        } else {
            0
        }) + seq!['~']
    }
}

/// `parts` joined with `sep` between them.
pub open spec fn join_spec(parts: Seq<Seq<char>>, sep: Seq<char>) -> Seq<char>
    decreases parts.len(),
{
    if parts.len() == 0 {
        seq![]
    } else if parts.len() == 1 {
        parts[0]
    } else {
        join_spec(parts.drop_last(), sep) + sep + parts.last()
    }
}

/// `value` cut to at most `max_chars` characters; a longer value keeps
/// its first `max_chars - 1` and ends in `~`.
pub fn short(value: &str, max_chars: usize) -> (r: String)
    ensures
        r@ == short_spec(value@, max_chars as nat),
{
    let cs = chars_of(value);
    if cs.len() <= max_chars {
        return own(value);
    }
    let k: usize = if max_chars > 0 {
        max_chars - 1
    } else {
        0
    };
    let mut s = string_of(&cs, 0, k);
    push_char(&mut s, '~');
    assert(cs@.subrange(0, k as int) =~= value@.take(k as int));
    s
}

/// `s` padded with spaces to `width` characters.
pub fn pad(s: &str, width: usize) -> (r: String)
    ensures
        r@ == pad_spec(s@, width as nat),
{
    let n = s.unicode_len();
    let mut r = own(s);
    if n >= width {
        return r;
    }
    let mut i: usize = n;
    while i < width
        invariant
            n == s@.len(),
            n <= i <= width,
            r@ == s@ + spaces((i - n) as nat),
        decreases width - i,
    {
        push_char(&mut r, ' ');
        assert(spaces((i + 1 - n) as nat) =~= spaces((i - n) as nat).push(' '));
        i = i + 1;
    }
    r
}

/// `parts` joined with `sep`.
pub fn join(parts: &Vec<String>, sep: &str) -> (r: String)
    ensures
        r@ == join_spec(views(parts@), sep@),
{
    let mut out = String::new();
    let mut i: usize = 0;
    proof {
        assert(views(parts@).take(0) =~= Seq::<Seq<char>>::empty());
    }
    while i < parts.len()
        invariant
            i <= parts@.len(),
            out@ == join_spec(views(parts@).take(i as int), sep@),
        decreases parts.len() - i,
    {
        let ghost pv = views(parts@);
        assert(pv.take(i + 1).drop_last() =~= pv.take(i as int));
        assert(pv.take(i + 1).last() == parts@[i as int]@);
        if i == 0 {
            out = own(parts[0].as_str());
        } else {
            out = cat3(out.as_str(), sep, parts[i].as_str());
        }
        i = i + 1;
    }
    assert(views(parts@).take(parts@.len() as int) =~= views(parts@));
    out
}

/// The state of a unit as shown: `active/sub`.
pub open spec fn unit_state_spec(u: UnitStatus) -> Seq<char> {
    u.active@ + "/"@ + u.sub_state@
}

/// The state of a unit: its active state and sub state.
pub fn unit_state(unit: &UnitStatus) -> (r: String)
    ensures
        r@ == unit_state_spec(*unit),
{
    cat3(unit.active.as_str(), "/", unit.sub_state.as_str())
}

/// Each activation unit as `kind:active/sub`.
pub open spec fn activation_parts(units: Seq<ActivationStatus>) -> Seq<Seq<char>> {
    units.map_values(|a: ActivationStatus| suffix_spec(a.kind) + ":"@ + unit_state_spec(a.unit))
}

/// The activation units as shown: `-` when none.
pub open spec fn activation_state_spec(units: Seq<ActivationStatus>) -> Seq<char> {
    if units.len() == 0 {
        "-"@
    } else {
        join_spec(activation_parts(units), ","@)
    }
}

/// The activation units of a service, joined with `,`.
pub fn activation_state(service_status: &ServiceStatus) -> (r: String)
    ensures
        r@ == activation_state_spec(service_status.activation_units@),
{
    let units = &service_status.activation_units;
    if units.len() == 0 {
        return own("-");
    }
    let mut parts: Vec<String> = Vec::new();
    let mut i: usize = 0;
    while i < units.len()
        invariant
            i <= units@.len(),
            views(parts@) == activation_parts(units@).take(i as int),
        decreases units.len() - i,
    {
        let s = unit_state(&units[i].unit);
        let p = cat3(units[i].kind.suffix(), ":", s.as_str());
        let ghost prev = parts@;
        parts.push(p);
        assert(views(parts@) =~= views(prev).push(p@));
        assert(activation_parts(units@).take(i + 1) =~= activation_parts(units@).take(i as int).push(p@));
        i = i + 1;
    }
    assert(activation_parts(units@).take(units@.len() as int) =~= activation_parts(units@));
    join(&parts, ",")
}

/// The part for one kind of dependency: `label=a,b`, none when empty.
pub open spec fn dependency_part(label: Seq<char>, values: Seq<String>) -> Seq<Seq<char>> {
    if values.len() == 0 {
        seq![]
    } else {
        seq![label + "="@ + join_spec(views(values), ","@)]
    }
}

/// The parts of a dependency summary, in the order requires, wants,
/// after, before, partOf.
pub open spec fn dependency_parts(d: Dependencies) -> Seq<Seq<char>> {
    dependency_part("requires"@, d.requires@) + dependency_part("wants"@, d.wants@) + dependency_part(
        "after"@,
        d.after@,
    ) + dependency_part("before"@, d.before@) + dependency_part("partOf"@, d.part_of@)
}

/// What keeps a service: its dependency parts joined with spaces, `-`
/// when there are none.
pub open spec fn dependency_summary_spec(d: Dependencies) -> Seq<char> {
    let p = dependency_parts(d);
    if p.len() == 0 {
        "-"@
    } else {
        join_spec(p, " "@)
    }
}

/// Adds the part for one kind of dependency.
pub fn push_dependency(parts: &mut Vec<String>, label: &str, values: &Vec<String>)
    ensures
        views(final(parts)@) == views(old(parts)@) + dependency_part(label@, values@),
{
    if values.len() > 0 {
        let j = join(values, ",");
        let p = cat3(label, "=", j.as_str());
        let ghost prev = parts@;
        parts.push(p);
        assert(views(parts@) =~= views(prev) + dependency_part(label@, values@));
    } else {
        assert(views(parts@) =~= views(parts@) + dependency_part(label@, values@));
    }
}

/// The dependencies of a service in one line.
pub fn dependency_summary(dependencies: &Dependencies) -> (r: String)
    ensures
        r@ == dependency_summary_spec(*dependencies),
{
    let mut parts: Vec<String> = Vec::new();
    assert(views(parts@) =~= seq![]);
    push_dependency(&mut parts, "requires", &dependencies.requires);
    push_dependency(&mut parts, "wants", &dependencies.wants);
    push_dependency(&mut parts, "after", &dependencies.after);
    push_dependency(&mut parts, "before", &dependencies.before);
    push_dependency(&mut parts, "partOf", &dependencies.part_of);
    assert(views(parts@) =~= dependency_parts(*dependencies));
    if parts.len() == 0 {
        own("-")
    } else {
        join(&parts, " ")
    }
}

} // verus!

verus! {

/// A row of the services table.
pub open spec fn row_spec(a: Seq<char>, b: Seq<char>, c: Seq<char>, d: Seq<char>, e: Seq<char>) -> Seq<char> {
    pad_spec(a, 24) + " "@ + pad_spec(b, 18) + " "@ + pad_spec(c, 18) + " "@ + pad_spec(d, 18) + " "@ + e + "\n"@
}

/// A row of the leases table.
pub open spec fn lease_row_spec(a: Seq<char>, b: Seq<char>, c: Seq<char>, d: Seq<char>, e: Seq<char>) -> Seq<char> {
    pad_spec(a, 18) + " "@ + pad_spec(b, 10) + " "@ + pad_spec(c, 8) + " "@ + pad_spec(d, 12) + " "@ + e + "\n"@
}

/// The rule under a table header.
pub open spec fn rule_spec() -> Seq<char> {
    Seq::new(96, |i: int| '-') + "\n"@
}

/// Builds `row_spec`.
fn row(a: &str, b: &str, c: &str, d: &str, e: &str) -> (r: String)
    ensures
        r@ == row_spec(a@, b@, c@, d@, e@),
{
    let mut r = pad(a, 24);
    push_str(&mut r, " ");
    push_str(&mut r, pad(b, 18).as_str());
    push_str(&mut r, " ");
    push_str(&mut r, pad(c, 18).as_str());
    push_str(&mut r, " ");
    push_str(&mut r, pad(d, 18).as_str());
    push_str(&mut r, " ");
    push_str(&mut r, e);
    push_str(&mut r, "\n");
    r
}

/// Builds `lease_row_spec`.
fn lease_row(a: &str, b: &str, c: &str, d: &str, e: &str) -> (r: String)
    ensures
        r@ == lease_row_spec(a@, b@, c@, d@, e@),
{
    let mut r = pad(a, 18);
    push_str(&mut r, " ");
    push_str(&mut r, pad(b, 10).as_str());
    push_str(&mut r, " ");
    push_str(&mut r, pad(c, 8).as_str());
    push_str(&mut r, " ");
    push_str(&mut r, pad(d, 12).as_str());
    push_str(&mut r, " ");
    push_str(&mut r, e);
    push_str(&mut r, "\n");
    r
}

/// Builds `rule_spec`.
fn rule() -> (r: String)
    ensures
        r@ == rule_spec(),
{
    let mut r = String::new();
    let mut i: usize = 0;
    while i < 96
        invariant
            i <= 96,
            r@ == Seq::new(i as nat, |k: int| '-'),
        decreases 96 - i,
    {
        push_char(&mut r, '-');
        assert(r@ =~= Seq::new((i + 1) as nat, |k: int| '-'));
        i = i + 1;
    }
    push_str(&mut r, "\n");
    r
}

/// What keeps service `name`, as the manifest says.
pub open spec fn kept_by_spec(manifest: Manifest, name: Seq<char>) -> Seq<char> {
    match lookup(manifest.services@, name) {
        Some(svc) => dependency_summary_spec(svc.dependencies),
        None => "-"@,
    }
}

/// The row of one service.
pub open spec fn service_row_spec(manifest: Manifest, name: Seq<char>, s: ServiceStatus) -> Seq<char> {
    row_spec(
        short_spec(name, 24),
        short_spec(unit_state_spec(s.start_unit), 18),
        short_spec(unit_state_spec(s.service_unit), 18),
        short_spec(activation_state_spec(s.activation_units@), 18),
        kept_by_spec(manifest, name),
    )
}

/// The line of one config of service `name`.
pub open spec fn config_line_spec(name: Seq<char>, config_name: Seq<char>, c: ConfigState) -> Seq<char> {
    "  "@ + name + ".config."@ + config_name + " "@ + c.status.kind@ + " "@ + (if c.exists {
        "exists"@
    } else {
        "missing"@
    }) + " "@ + c.status.path@ + "\n"@
}

/// The lines of the configs of service `name`.
pub open spec fn config_lines_spec(name: Seq<char>, cs: Seq<(String, ConfigState)>) -> Seq<char>
    decreases cs.len(),
{
    if cs.len() == 0 {
        seq![]
    } else {
        config_lines_spec(name, cs.drop_last()) + config_line_spec(name, cs.last().0@, cs.last().1)
    }
}

/// The lines under the row of service `name`: its base, run and data
/// directories, then its configs.
pub open spec fn details_spec(name: Seq<char>, s: ServiceStatus) -> Seq<char> {
    "  "@ + name + ".runtime base="@ + s.paths.base@ + "\n"@ + "  "@ + name + ".runtime run="@ + s.paths.run@
        + "\n"@ + "  "@ + name + ".runtime data="@ + s.paths.data@ + "\n"@ + config_lines_spec(name, s.configs@)
}

/// The rows and details of the services, in name order.
pub open spec fn service_lines_spec(manifest: Manifest, ss: Seq<(String, ServiceStatus)>) -> Seq<char>
    decreases ss.len(),
{
    if ss.len() == 0 {
        seq![]
    } else {
        service_lines_spec(manifest, ss.drop_last()) + service_row_spec(manifest, ss.last().0@, ss.last().1)
            + details_spec(ss.last().0@, ss.last().1)
    }
}

/// The services table.
pub open spec fn services_table_spec(manifest: Manifest, status: SetStatus) -> Seq<char> {
    "services\n"@ + row_spec("name"@, "start"@, "service"@, "activation"@, "kept by"@) + rule_spec()
        + service_lines_spec(manifest, status.services@)
}

/// The row of one service.
fn service_row(manifest: &Manifest, name: &str, s: &ServiceStatus) -> (r: String)
    ensures
        r@ == service_row_spec(*manifest, name@, *s),
{
    let start = short(unit_state(&s.start_unit).as_str(), 18);
    let service = short(unit_state(&s.service_unit).as_str(), 18);
    let activation = short(activation_state(s).as_str(), 18);
    let kept = match manifest.services.get(name) {
        Some(svc) => dependency_summary(&svc.dependencies),
        None => own("-"),
    };
    row(short(name, 24).as_str(), start.as_str(), service.as_str(), activation.as_str(), kept.as_str())
}

/// The lines under the row of service `name`.
pub fn render_service_details(name: &str, s: &ServiceStatus) -> (r: String)
    ensures
        r@ == details_spec(name@, *s),
{
    let mut out = own("  ");
    push_str(&mut out, name);
    push_str(&mut out, ".runtime base=");
    push_str(&mut out, s.paths.base.as_str());
    push_str(&mut out, "\n");
    push_str(&mut out, "  ");
    push_str(&mut out, name);
    push_str(&mut out, ".runtime run=");
    push_str(&mut out, s.paths.run.as_str());
    push_str(&mut out, "\n");
    push_str(&mut out, "  ");
    push_str(&mut out, name);
    push_str(&mut out, ".runtime data=");
    push_str(&mut out, s.paths.data.as_str());
    push_str(&mut out, "\n");
    let ghost head = out@;
    let configs = s.configs.entries();
    let mut i: usize = 0;
    proof {
        assert(configs@.take(0) =~= Seq::<(String, ConfigState)>::empty());
        assert(out@ =~= head + config_lines_spec(name@, configs@.take(0)));
    }
    while i < configs.len()
        invariant
            configs@ == s.configs@,
            i <= configs@.len(),
            out@ == head + config_lines_spec(name@, configs@.take(i as int)),
        decreases configs.len() - i,
    {
        let c = &configs[i];
        let mut line = own("  ");
        push_str(&mut line, name);
        push_str(&mut line, ".config.");
        push_str(&mut line, c.0.as_str());
        push_str(&mut line, " ");
        push_str(&mut line, c.1.status.kind.as_str());
        push_str(&mut line, " ");
        if c.1.exists {
            push_str(&mut line, "exists");
        } else {
            push_str(&mut line, "missing");
        }
        push_str(&mut line, " ");
        push_str(&mut line, c.1.status.path.as_str());
        push_str(&mut line, "\n");
        assert(line@ == config_line_spec(name@, c.0@, c.1));
        let ghost before = out@;
        push_str(&mut out, line.as_str());
        assert(configs@.take(i + 1).drop_last() =~= configs@.take(i as int));
        assert(configs@.take(i + 1).last() == configs@[i as int]);
        assert(out@ =~= head + config_lines_spec(name@, configs@.take(i + 1)));
        i = i + 1;
    }
    assert(configs@.take(configs@.len() as int) =~= configs@);
    out
}

/// The services table: a header, and each service's row and details.
pub fn render_services(manifest: &Manifest, status: &SetStatus) -> (r: String)
    ensures
        r@ == services_table_spec(*manifest, *status),
{
    let mut out = own("services\n");
    push_str(&mut out, row("name", "start", "service", "activation", "kept by").as_str());
    push_str(&mut out, rule().as_str());
    let ghost head = out@;
    let services = status.services.entries();
    let mut i: usize = 0;
    proof {
        assert(services@.take(0) =~= Seq::<(String, ServiceStatus)>::empty());
        assert(out@ =~= head + service_lines_spec(*manifest, services@.take(0)));
    }
    while i < services.len()
        invariant
            services@ == status.services@,
            i <= services@.len(),
            out@ == head + service_lines_spec(*manifest, services@.take(i as int)),
        decreases services.len() - i,
    {
        let e = &services[i];
        let r1 = service_row(manifest, e.0.as_str(), &e.1);
        let r2 = render_service_details(e.0.as_str(), &e.1);
        push_str(&mut out, r1.as_str());
        push_str(&mut out, r2.as_str());
        assert(services@.take(i + 1).drop_last() =~= services@.take(i as int));
        assert(services@.take(i + 1).last() == services@[i as int]);
        assert(out@ =~= head + service_lines_spec(*manifest, services@.take(i + 1)));
        i = i + 1;
    }
    assert(services@.take(services@.len() as int) =~= services@);
    out
}

/// A lease's pid as shown: `-` when it has none.
pub open spec fn pid_text(pid: Option<u32>) -> Seq<char> {
    match pid {
        Some(p) => decimal(p as nat),
        None => "-"@,
    }
}

/// The row of one lease.
pub open spec fn lease_line_spec(l: Lease) -> Seq<char> {
    lease_row_spec(
        short_spec(l.token@, 18),
        short_spec(l.kind@, 10),
        short_spec(pid_text(l.pid), 8),
        short_spec(decimal(l.updated_at as nat), 12),
        l.root@,
    )
}

/// The rows of the leases.
pub open spec fn lease_lines_spec(ls: Seq<Lease>) -> Seq<char>
    decreases ls.len(),
{
    if ls.len() == 0 {
        seq![]
    } else {
        lease_lines_spec(ls.drop_last()) + lease_line_spec(ls.last())
    }
}

/// The leases table.
pub open spec fn leases_table_spec(ls: Seq<Lease>) -> Seq<char> {
    "\n"@ + "leases\n"@ + lease_row_spec("token"@, "kind"@, "pid"@, "updated"@, "root"@) + rule_spec() + (if ls.len()
        == 0 {
        "no leases\n"@
    } else {
        lease_lines_spec(ls)
    })
}

/// The row of one lease.
fn lease_line(l: &Lease) -> (r: String)
    ensures
        r@ == lease_line_spec(*l),
{
    let pid = match l.pid {
        Some(p) => decimal_string(p as u64),
        None => own("-"),
    };
    let updated = decimal_string(l.updated_at);
    lease_row(
        short(l.token.as_str(), 18).as_str(),
        short(l.kind.as_str(), 10).as_str(),
        short(pid.as_str(), 8).as_str(),
        short(updated.as_str(), 12).as_str(),
        l.root.as_str(),
    )
}

/// The leases table: a header, and a row per lease, or `no leases`.
pub fn render_leases(status: &SetStatus) -> (r: String)
    ensures
        r@ == leases_table_spec(status.leases@),
{
    let mut out = own("\n");
    push_str(&mut out, "leases\n");
    push_str(&mut out, lease_row("token", "kind", "pid", "updated", "root").as_str());
    push_str(&mut out, rule().as_str());
    let leases = &status.leases;
    if leases.len() == 0 {
        push_str(&mut out, "no leases\n");
        return out;
    }
    let ghost head = out@;
    let mut body = String::new();
    let mut i: usize = 0;
    proof {
        assert(leases@.take(0) =~= Seq::<Lease>::empty());
    }
    while i < leases.len()
        invariant
            i <= leases@.len(),
            body@ == lease_lines_spec(leases@.take(i as int)),
        decreases leases.len() - i,
    {
        let line = lease_line(&leases[i]);
        push_str(&mut body, line.as_str());
        assert(leases@.take(i + 1).drop_last() =~= leases@.take(i as int));
        assert(leases@.take(i + 1).last() == leases@[i as int]);
        i = i + 1;
    }
    assert(leases@.take(leases@.len() as int) =~= leases@);
    push_str(&mut out, body.as_str());
    out
}

/// The whole screen.
pub open spec fn render_spec(manifest: Manifest, status: SetStatus, now: u64) -> Seq<char> {
    "ides tui\n"@ + "set: "@ + status.name@ + "  id: "@ + short_spec(status.set_id@, 12) + "  refreshed: "@ + decimal(
        now as nat,
    ) + "\n"@ + "runtime: "@ + status.root@ + "\n"@ + "leases: "@ + decimal(status.leases@.len()) + "\n"@ + "\n"@
        + services_table_spec(manifest, status) + leases_table_spec(status.leases@)
}

/// The screen for a status taken at `now` (seconds since the epoch).
pub fn render(manifest: &Manifest, status: &SetStatus, now: u64) -> (r: String)
    ensures
        r@ == render_spec(*manifest, *status, now),
{
    let mut out = own("ides tui\n");
    push_str(&mut out, "set: ");
    push_str(&mut out, status.name.as_str());
    push_str(&mut out, "  id: ");
    push_str(&mut out, short(status.set_id.as_str(), 12).as_str());
    push_str(&mut out, "  refreshed: ");
    push_str(&mut out, decimal_string(now).as_str());
    push_str(&mut out, "\n");
    push_str(&mut out, "runtime: ");
    push_str(&mut out, status.root.as_str());
    push_str(&mut out, "\n");
    push_str(&mut out, "leases: ");
    push_str(&mut out, decimal_string(status.leases.len() as u64).as_str());
    push_str(&mut out, "\n");
    push_str(&mut out, "\n");
    push_str(&mut out, render_services(manifest, status).as_str());
    push_str(&mut out, render_leases(status).as_str());
    out
}

/// The screen when the status could not be taken.
pub open spec fn render_error_spec(manifest: Manifest, err: Seq<char>) -> Seq<char> {
    "ides tui\n"@ + "set: "@ + manifest.name@ + "  id: "@ + short_spec(manifest.set_id@, 12) + "\n"@ + "error: "@
        + err + "\n"@
}

/// The screen showing why the status could not be taken.
pub fn render_error(manifest: &Manifest, err: &str) -> (r: String)
    ensures
        r@ == render_error_spec(*manifest, err@),
{
    let mut out = own("ides tui\n");
    push_str(&mut out, "set: ");
    push_str(&mut out, manifest.name.as_str());
    push_str(&mut out, "  id: ");
    push_str(&mut out, short(manifest.set_id.as_str(), 12).as_str());
    push_str(&mut out, "\n");
    push_str(&mut out, "error: ");
    push_str(&mut out, err);
    push_str(&mut out, "\n");
    out
}

} // verus!

verus! {

/// Law: a cut value fits its column: at most `n` characters (one, the
/// `~`, when `n` is zero and the value is not empty), and an uncut value
/// is the value itself.
pub proof fn lemma_short_fits(v: Seq<char>, n: nat)
    ensures
        short_spec(v, n).len() <= if n > 0 {
            n
        } else if v.len() > 0 {
            1
        } else {
            0
        },
        v.len() <= n ==> short_spec(v, n) == v,
        v.len() > n ==> short_spec(v, n).last() == '~',
{
}

/// Law: padding gives a column exactly `w` characters wide, starting with
/// the value, unless the value is wider already.
pub proof fn lemma_pad_width(s: Seq<char>, w: nat)
    ensures
        pad_spec(s, w).len() == if s.len() >= w {
            s.len()
        } else {
            w
        },
        pad_spec(s, w).take(s.len() as int) == s,
{
    assert(pad_spec(s, w).take(s.len() as int) =~= s);
}

} // verus!
