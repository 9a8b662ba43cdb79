//! Leases keep a service set running while shells use it. A lease lives
//! in a file named by its token under the runtime home; the token must not
//! lead outside it.
use vstd::prelude::*;

use crate::manifest::Manifest;
use crate::path::{
    all_normal, components, has_root, include_cur_dir, join, path_join,
    path_starts_with, safe_relative, scan, seg_comp, Comp,
};
use crate::text::{cat, cat3, chars_of, lex_lt, own, str_has_char};

verus! {

/// A lease as stored on disk.
#[derive(Debug)]
pub struct Lease {
    pub schema_version: u64,
    pub set_id: String,
    pub token: String,
    pub manifest_path: String,
    pub kind: String,
    pub root: String,
    pub pid: Option<u32>,
    pub created_at: u64,
    pub updated_at: u64,
}

/// What leaving a lease tells the caller.
#[derive(Debug)]
pub struct LeaveOutcome {
    pub manifest_path: String,
    pub last: bool,
}

/// The path `value` has exactly one component, a plain name.
pub open spec fn single_normal(value: Seq<char>) -> bool {
    components(value).len() == 1 && components(value)[0] is Normal
}

/// A part of a lease token: no `:`, one plain path component.
pub open spec fn token_component_ok(value: Seq<char>) -> bool {
    !value.contains(':') && single_normal(value)
}

/// The message for a bad token part.
pub open spec fn component_msg(name: Seq<char>) -> Seq<char> {
    name + " must be a single safe path component"@
}

/// Checks that `value` (called `name` in errors) is one plain path
/// component without `:`.
pub fn validate_token_component(name: &str, value: &str) -> (r: Result<(), String>)
    ensures
        r is Ok <==> token_component_ok(value@),
        r matches Err(e) ==> e@ == component_msg(name@),
{
    if str_has_char(value, ':') {
        return Err(cat(name, " must be a single safe path component"));
    }
    let comps = crate::path::path_components(value);
    if comps.len() == 1 {
        match &comps[0] {
            crate::path::Component::Normal(_) => {
                return Ok(());
            },
            _ => {},
        }
    }
    Err(cat(name, " must be a single safe path component"))
}

/// The message when `XDG_RUNTIME_DIR` is not set.
pub open spec fn no_runtime_dir_msg() -> Seq<char> {
    "XDG_RUNTIME_DIR must be set to use ides leases"@
}

/// The directory holding all lease directories: `ides` under
/// `XDG_RUNTIME_DIR`, whose value the caller reads and passes in.
pub fn runtime_home(xdg_runtime_dir: Option<&str>) -> (r: Result<String, String>)
    ensures
        match xdg_runtime_dir {
            None => r matches Err(e) && e@ == no_runtime_dir_msg(),
            Some(x) => r matches Ok(h) && h@ == join(x@, "ides"@),
        },
{
    match xdg_runtime_dir {
        None => Err(own("XDG_RUNTIME_DIR must be set to use ides leases")),
        Some(x) => Ok(path_join(x, "ides")),
    }
}

/// What `lease_dir` gives.
pub open spec fn lease_dir_spec(set_id: Seq<char>, xdg: Option<Seq<char>>) -> Result<Seq<char>, Seq<char>> {
    if !token_component_ok(set_id) {
        Err(component_msg("lease set id"@))
    } else {
        match xdg {
            None => Err(no_runtime_dir_msg()),
            Some(x) => Ok(join(join(join(x, "ides"@), set_id), "leases"@)),
        }
    }
}

/// The directory of the leases of set `set_id`.
pub fn lease_dir(set_id: &str, xdg_runtime_dir: Option<&str>) -> (r: Result<String, String>)
    ensures
        match r {
            Ok(d) => lease_dir_spec(set_id@, opt_view(xdg_runtime_dir)) == Ok::<Seq<char>, Seq<char>>(d@),
            Err(e) => lease_dir_spec(set_id@, opt_view(xdg_runtime_dir)) == Err::<Seq<char>, Seq<char>>(e@),
        },
{
    validate_token_component("lease set id", set_id)?;
    let home = runtime_home(xdg_runtime_dir)?;
    let d = path_join(home.as_str(), set_id);
    Ok(path_join(d.as_str(), "leases"))
}

/// The view of an optional string.
pub open spec fn opt_view(s: Option<&str>) -> Option<Seq<char>> {
    match s {
        Some(x) => Some(x@),
        None => None,
    }
}

/// Index of the first `c` in `s`, or its length.
pub open spec fn first_index(s: Seq<char>, c: char) -> nat
    decreases s.len(),
{
    if s.len() == 0 || s[0] == c {
        0
    } else {
        1 + first_index(s.drop_first(), c)
    }
}

pub proof fn lemma_first_index(s: Seq<char>, c: char, k: int)
    requires
        0 <= k <= s.len(),
        k < s.len() ==> s[k] == c,
        forall|j: int| 0 <= j < k ==> s[j] != c,
    ensures
        first_index(s, c) == k,
    decreases s.len(),
{
    if k > 0 {
        assert forall|j: int| 0 <= j < k - 1 implies s.drop_first()[j] != c by {
            assert(s[j + 1] != c);
        }
        lemma_first_index(s.drop_first(), c, k - 1);
    }
}

/// A token split at its first `:` (`str::split_once`).
pub open spec fn split_token(t: Seq<char>) -> Option<(Seq<char>, Seq<char>)> {
    let i = first_index(t, ':');
    if i < t.len() {
        Some((t.take(i as int), t.skip(i as int + 1)))
    } else {
        None
    }
}

/// The message for a token without `:`.
pub open spec fn token_form_msg() -> Seq<char> {
    "lease token must have the form <set-id>:<id>"@
}

/// What `lease_path` gives.
pub open spec fn lease_path_spec(token: Seq<char>, xdg: Option<Seq<char>>) -> Result<Seq<char>, Seq<char>> {
    match split_token(token) {
        None => Err(token_form_msg()),
        Some((set_id, id)) => if !token_component_ok(set_id) {
            Err(component_msg("lease set id"@))
        } else if !token_component_ok(id) {
            Err(component_msg("lease id"@))
        } else {
            match lease_dir_spec(set_id, xdg) {
                Err(e) => Err(e),
                Ok(d) => Ok(join(d, id + ".json"@)),
            }
        },
    }
}

/// The file of the lease with token `<set-id>:<id>`: `<id>.json` in the
/// set's lease directory. Both parts must be single plain path components.
pub fn lease_path(token: &str, xdg_runtime_dir: Option<&str>) -> (r: Result<String, String>)
    ensures
        match r {
            Ok(p) => lease_path_spec(token@, opt_view(xdg_runtime_dir)) == Ok::<Seq<char>, Seq<char>>(p@),
            Err(e) => lease_path_spec(token@, opt_view(xdg_runtime_dir)) == Err::<Seq<char>, Seq<char>>(e@),
        },
{
    let cs = chars_of(token);
    let mut i: usize = 0;
    while i < cs.len() && cs[i] != ':'
        invariant
            i <= cs@.len(),
            forall|j: int| 0 <= j < i ==> cs@[j] != ':',
        decreases cs.len() - i,
    {
        i = i + 1;
    }
    proof {
        lemma_first_index(cs@, ':', i as int);
    }
    if i == cs.len() {
        return Err(own("lease token must have the form <set-id>:<id>"));
    }
    let set_id = crate::text::string_of(&cs, 0, i);
    let id = crate::text::string_of(&cs, i + 1, cs.len());
    proof {
        assert(set_id@ =~= cs@.take(i as int));
        assert(id@ =~= cs@.skip(i + 1));
    }
    validate_token_component("lease set id", set_id.as_str())?;
    validate_token_component("lease id", id.as_str())?;
    let dir = lease_dir(set_id.as_str(), xdg_runtime_dir)?;
    let file = cat(id.as_str(), ".json");
    Ok(path_join(dir.as_str(), file.as_str()))
}

/// The token of a new lease: `<set-id>:<id>`.
pub fn lease_token(set_id: &str, id: &str) -> (r: String)
    ensures
        r@ == set_id@ + ":"@ + id@,
{
    cat3(set_id, ":", id)
}

/// A fresh lease of set `manifest.set_id`, created and updated at `now`.
pub fn new_lease(
    manifest: &Manifest,
    id: &str,
    manifest_path: &str,
    kind: &str,
    root: &str,
    pid: Option<u32>,
    now: u64,
) -> (r: Lease)
    ensures
        r.schema_version == 1,
        r.set_id@ == manifest.set_id@,
        r.token@ == manifest.set_id@ + ":"@ + id@,
        r.manifest_path@ == manifest_path@,
        r.kind@ == kind@,
        r.root@ == root@,
        r.pid == pid,
        r.created_at == now,
        r.updated_at == now,
{
    Lease {
        schema_version: 1,
        set_id: own(manifest.set_id.as_str()),
        token: lease_token(manifest.set_id.as_str(), id),
        manifest_path: own(manifest_path),
        kind: own(kind),
        root: own(root),
        pid,
        created_at: now,
        updated_at: now,
    }
}

/// A file name whose extension is `json`: it ends with `.json` and that
/// dot is not its first character.
pub open spec fn is_json_file(name: Seq<char>) -> bool {
    name.len() > 5 && name.skip(name.len() - 5) == ".json"@
}

/// Whether a file name has the extension `json`.
pub fn is_lease_file(name: &str) -> (r: bool)
    ensures
        r == is_json_file(name@),
{
    let cs = chars_of(name);
    if cs.len() <= 5 {
        return false;
    }
    let r = crate::text::slice_eq_str(&cs, cs.len() - 5, cs.len(), ".json");
    assert(cs@.subrange(cs@.len() - 5, cs@.len() as int) =~= cs@.skip(cs@.len() - 5));
    r
}

/// The number of names of `names` that are lease files.
pub open spec fn count_json(names: Seq<String>) -> nat
    decreases names.len(),
{
    if names.len() == 0 {
        0
    } else {
        count_json(names.drop_last()) + if is_json_file(names.last()@) {
            1nat
        } else {
            0nat
        }
    }
}

/// The number of active leases, given the file names in the set's lease
/// directory (after stale leases were removed).
pub fn active_count(file_names: &Vec<String>) -> (r: usize)
    ensures
        r == count_json(file_names@),
{
    let mut n: usize = 0;
    let mut i: usize = 0;
    while i < file_names.len()
        invariant
            i <= file_names@.len(),
            n == count_json(file_names@.take(i as int)),
            n <= i,
        decreases file_names.len() - i,
    {
        assert(file_names@.take(i + 1).drop_last() =~= file_names@.take(i as int));
        if is_lease_file(file_names[i].as_str()) {
            n = n + 1;
        }
        i = i + 1;
    }
    assert(file_names@.take(file_names@.len() as int) =~= file_names@);
    n
}

/// Leases ordered by token: no token comes before a smaller one.
pub open spec fn sorted_by_token(s: Seq<Lease>) -> bool {
    forall|i: int, j: int| 0 <= i < j < s.len() ==> !lex_lt(#[trigger] s[j].token@, #[trigger] s[i].token@)
}

/// The position at which a lease with token `t` goes into `s`: after
/// every lease whose token is not greater.
pub open spec fn insert_at(s: Seq<Lease>, t: Seq<char>) -> nat
    decreases s.len(),
{
    if s.len() == 0 || lex_lt(t, s[0].token@) {
        0
    } else {
        1 + insert_at(s.drop_first(), t)
    }
}

/// Leases ordered by token, leases with equal tokens in the order given
/// (a stable sort).
pub open spec fn by_token(s: Seq<Lease>) -> Seq<Lease>
    decreases s.len(),
{
    if s.len() == 0 {
        seq![]
    } else {
        let sorted = by_token(s.drop_last());
        sorted.insert(insert_at(sorted, s.last().token@) as int, s.last())
    }
}

/// The first `k` leases do not go after `t`, and the next one does (or
/// there is none): `insert_at` is `k`.
proof fn lemma_insert_at(s: Seq<Lease>, t: Seq<char>, k: int)
    requires
        0 <= k <= s.len(),
        forall|j: int| 0 <= j < k ==> !lex_lt(t, #[trigger] s[j].token@),
        k < s.len() ==> lex_lt(t, s[k].token@),
    ensures
        insert_at(s, t) == k,
    decreases s.len(),
{
    if k > 0 {
        assert(!lex_lt(t, s[0].token@));
        assert forall|j: int| 0 <= j < k - 1 implies !lex_lt(t, #[trigger] s.drop_first()[j].token@) by {
            assert(s.drop_first()[j] == s[j + 1]);
        }
        lemma_insert_at(s.drop_first(), t, k - 1);
    }
}

/// The leases of a set, ordered by token; leases with equal tokens keep
/// their order.
pub fn list(leases: Vec<Lease>) -> (r: Vec<Lease>)
    ensures
        r@ == by_token(leases@),
        r@.to_multiset() == leases@.to_multiset(),
        sorted_by_token(r@),
{
    let mut rest = leases;
    let mut out: Vec<Lease> = Vec::new();
    let ghost orig = rest@;
    proof {
        assert(orig =~= out@ + rest@);
        assert(orig.take(0) =~= Seq::<Lease>::empty());
        assert(orig.skip(0) =~= orig);
    }
    while rest.len() > 0
        invariant
            sorted_by_token(out@),
            (out@ + rest@).to_multiset() == orig.to_multiset(),
            rest@.len() <= orig.len(),
            rest@ == orig.skip(orig.len() - rest@.len()),
            out@ == by_token(orig.take(orig.len() - rest@.len())),
        decreases rest@.len(),
    {
        let ghost rest_before = rest@;
        let ghost out_before = out@;
        let ghost done = orig.len() - rest@.len();
        assert(rest_before[0] == orig[done]);
        let item = rest.remove(0);
        let mut k: usize = 0;
        while k < out.len() && !crate::text::str_lt(item.token.as_str(), out[k].token.as_str())
            invariant
                k <= out@.len(),
                out@ == out_before,
                forall|j: int| 0 <= j < k ==> !lex_lt(item.token@, (#[trigger] out@[j]).token@),
            decreases out.len() - k,
        {
            k = k + 1;
        }
        proof {
            assert forall|j: int| k <= j < out@.len() implies lex_lt(item.token@, (#[trigger] out@[j]).token@) by {
                assert(lex_lt(item.token@, out@[k as int].token@));
                if j > k {
                    assert(!lex_lt(out@[j].token@, out@[k as int].token@));
                    if out@[k as int].token@ != out@[j].token@ {
                        crate::text::lemma_lex_lt_total(out@[k as int].token@, out@[j].token@);
                        crate::text::lemma_lex_lt_transitive(item.token@, out@[k as int].token@, out@[j].token@);
                    }
                }
            }
        }
        proof {
            lemma_insert_at(out@, item.token@, k as int);
            assert(orig.take(done + 1).drop_last() =~= orig.take(done));
            assert(orig.take(done + 1).last() == item);
            assert(rest@ =~= orig.skip(done + 1));
        }
        out.insert(k, item);
        proof {
            assert forall|a: int, b: int| 0 <= a < b < out@.len() implies !lex_lt(#[trigger] out@[b].token@, #[trigger] out@[a].token@) by {
                if b < k {
                    assert(out@[a] == out_before[a] && out@[b] == out_before[b]);
                } else if b == k {
                    assert(out@[a] == out_before[a]);
                } else if a == k {
                    assert(out@[b] == out_before[b - 1]);
                    crate::text::lemma_lex_lt_asymmetric(out@[a].token@, out@[b].token@);
                } else if a < k {
                    assert(out@[a] == out_before[a] && out@[b] == out_before[b - 1]);
                } else {
                    assert(out@[a] == out_before[a - 1] && out@[b] == out_before[b - 1]);
                }
            }
            broadcast use vstd::multiset::group_multiset_axioms;
            vstd::seq_lib::to_multiset_insert(out_before, k as int, rest_before[0]);
            vstd::seq_lib::to_multiset_contains(rest_before, rest_before[0]);
            assert(rest_before.contains(rest_before[0]));
            vstd::seq_lib::to_multiset_remove(rest_before, 0);
            vstd::seq_lib::lemma_multiset_commutative(out_before, rest_before);
            vstd::seq_lib::lemma_multiset_commutative(out@, rest@);
            assert(rest@ =~= rest_before.remove(0));
            assert(out@ =~= out_before.insert(k as int, rest_before[0]));
            assert((out@ + rest@).to_multiset() =~= (out_before + rest_before).to_multiset());
        }
    }
    proof {
        assert(out@ + rest@ =~= out@);
        assert(orig.take(orig.len() as int) =~= orig);
    }
    out
}

/// Whether a lease file is stale: it cannot be read, or its process is
/// gone (`pid_gone` is only consulted when the lease names a process).
pub fn is_stale(lease: Option<&Lease>, pid_gone: bool) -> (r: bool)
    ensures
        r == match lease {
            None => true,
            Some(l) => l.pid is Some && pid_gone,
        },
{
    match lease {
        None => true,
        Some(l) => l.pid.is_some() && pid_gone,
    }
}

/// The outcome of leaving `lease` when `remaining` leases are left.
pub fn leave_outcome(lease: &Lease, remaining: usize) -> (r: LeaveOutcome)
    ensures
        r.manifest_path@ == lease.manifest_path@,
        r.last == (remaining == 0),
{
    LeaveOutcome { manifest_path: own(lease.manifest_path.as_str()), last: remaining == 0 }
}

/// `lease` refreshed at `now`.
pub fn heartbeat(lease: &mut Lease, now: u64)
    ensures
        final(lease).updated_at == now,
        final(lease).token == old(lease).token,
        final(lease).set_id == old(lease).set_id,
        final(lease).created_at == old(lease).created_at,
        final(lease).pid == old(lease).pid,
        final(lease).manifest_path == old(lease).manifest_path,
        final(lease).kind == old(lease).kind,
        final(lease).root == old(lease).root,
        final(lease).schema_version == old(lease).schema_version,
{
    lease.updated_at = now;
}

/// Scanning characters without `/` only extends the segment in progress.
pub proof fn lemma_scan_no_sep(y: Seq<char>, cur: Seq<char>)
    requires
        !y.contains('/'),
    ensures
        crate::path::scan(y, cur) == crate::path::seg_comp(cur + y),
    decreases y.len(),
{
    if y.len() == 0 {
        assert(cur + y =~= cur);
    } else {
        assert(y[0] != '/') by {
            assert(y.contains(y[0]));
        }
        assert(!y.drop_first().contains('/')) by {
            if y.drop_first().contains('/') {
                let k = choose|k: int| 0 <= k < y.drop_first().len() && y.drop_first()[k] == '/';
                assert(y[k + 1] == '/');
            }
        }
        lemma_scan_no_sep(y.drop_first(), cur.push(y[0]));
        assert(cur.push(y[0]) + y.drop_first() =~= cur + y);
    }
}

/// Appending a suffix of at least three characters without `/` to a path
/// of plain names keeps it a nonempty path of plain names.
pub proof fn lemma_scan_suffix(x: Seq<char>, cur: Seq<char>, y: Seq<char>)
    requires
        y.len() >= 3,
        !y.contains('/'),
        all_normal(crate::path::scan(x, cur)),
    ensures
        all_normal(crate::path::scan(x + y, cur)),
        crate::path::scan(x + y, cur).len() > 0,
    decreases x.len(),
{
    if x.len() == 0 {
        assert(x + y =~= y);
        lemma_scan_no_sep(y, cur);
        let seg = cur + y;
        assert(seg.len() >= 3);
        assert(seg != seq!['.'] && seg != seq!['.', '.']) by {
            if seg == seq!['.'] {
                assert(seg.len() == 1);
            }
            if seg == seq!['.', '.'] {
                assert(seg.len() == 2);
            }
        }
        assert(seg_comp(seg) =~= seq![Comp::Normal(seg)]);
    } else {
        assert((x + y)[0] == x[0]);
        assert((x + y).drop_first() =~= x.drop_first() + y);
        if x[0] == '/' {
            let a = seg_comp(cur);
            assert(scan(x, cur) == a + scan(x.drop_first(), seq![]));
            assert(all_normal(scan(x.drop_first(), seq![]))) by {
                assert forall|i: int| 0 <= i < scan(x.drop_first(), seq![]).len() implies #[trigger] scan(x.drop_first(), seq![])[i] is Normal by {
                    assert(scan(x, cur)[a.len() + i] == scan(x.drop_first(), seq![])[i]);
                }
            }
            lemma_scan_suffix(x.drop_first(), seq![], y);
            let t = scan(x.drop_first() + y, seq![]);
            assert(scan(x + y, cur) == a + t);
            assert forall|i: int| 0 <= i < (a + t).len() implies #[trigger] (a + t)[i] is Normal by {
                if i < a.len() {
                    assert(scan(x, cur)[i] == a[i]);
                } else {
                    assert((a + t)[i] == t[i - a.len()]);
                }
            }
        } else {
            lemma_scan_suffix(x.drop_first(), cur.push(x[0]), y);
        }
    }
}

/// A lease file name `<id>.json` of a valid id is a safe relative path.
pub proof fn lemma_lease_file_safe(id: Seq<char>)
    requires
        single_normal(id),
    ensures
        safe_relative(id + ".json"@),
{
    reveal_strlit(".json");
    let y = ".json"@;
    assert(y.len() == 5);
    assert(!y.contains('/')) by {
        if y.contains('/') {
            let k = choose|k: int| 0 <= k < y.len() && y[k] == '/';
            assert(y[k] != '/');
        }
    }
    assert(!has_root(id)) by {
        if has_root(id) {
            assert(components(id)[0] == Comp::Root);
        }
    }
    assert(!include_cur_dir(id)) by {
        if include_cur_dir(id) {
            assert(components(id)[0] == Comp::Cur);
        }
    }
    assert(components(id) =~= scan(id, seq![]));
    assert(id.len() > 0) by {
        if id.len() == 0 {
            assert(scan(id, seq![]) =~= Seq::<Comp>::empty());
        }
    }
    lemma_scan_suffix(id, seq![], y);
    let f = id + y;
    assert(f[0] == id[0]);
    assert(!has_root(f));
    assert(!include_cur_dir(f)) by {
        if id.len() == 1 {
            assert(f[1] == '.');
            if id[0] == '.' {
                assert(id =~= seq!['.']);
                assert(scan(id, seq![]) =~= Seq::<Comp>::empty()) by {
                    assert(id.drop_first() =~= Seq::<char>::empty());
                    assert(seq![].push('.') =~= seq!['.']);
                }
            }
        } else {
            assert(f[1] == id[1]);
        }
    }
    assert(components(f) =~= scan(f, seq![]));
}

/// A name that passes the token check is a safe relative path.
pub proof fn lemma_single_normal_safe(v: Seq<char>)
    requires
        single_normal(v),
    ensures
        safe_relative(v),
{
    if has_root(v) {
        assert(components(v)[0] == Comp::Root);
    }
}

/// `leases` is a safe relative path.
pub proof fn lemma_leases_safe()
    ensures
        safe_relative("leases"@),
{
    reveal_strlit("leases");
    let l = "leases"@;
    assert(!has_root(l));
    assert(!include_cur_dir(l));
    reveal_with_fuel(scan, 8);
    assert(scan(l, seq![]) == scan(l.drop_first(), seq![l[0]]));
    assert(l.skip(6) =~= Seq::<char>::empty());
    assert(scan(l, seq![]) =~= seq![Comp::Normal(l)]) by {
        assert(l.drop_first() =~= l.skip(1));
        assert(l.skip(1).drop_first() =~= l.skip(2));
        assert(l.skip(2).drop_first() =~= l.skip(3));
        assert(l.skip(3).drop_first() =~= l.skip(4));
        assert(l.skip(4).drop_first() =~= l.skip(5));
        assert(l.skip(5).drop_first() =~= l.skip(6));
        assert(seq![l[0]].push(l[1]).push(l[2]).push(l[3]).push(l[4]).push(l[5]) =~= l);
        assert(scan(l.skip(6), l) == seg_comp(l));
        assert(scan(l.skip(5), l.take(5)) == scan(l.skip(6), l.take(5).push(l[5])));
        assert(l.take(5).push(l[5]) =~= l);
        assert(scan(l.skip(4), l.take(4)) == scan(l.skip(5), l.take(4).push(l[4])));
        assert(l.take(4).push(l[4]) =~= l.take(5));
        assert(scan(l.skip(3), l.take(3)) == scan(l.skip(4), l.take(3).push(l[3])));
        assert(l.take(3).push(l[3]) =~= l.take(4));
        assert(scan(l.skip(2), l.take(2)) == scan(l.skip(3), l.take(2).push(l[2])));
        assert(l.take(2).push(l[2]) =~= l.take(3));
        assert(scan(l.skip(1), l.take(1)) == scan(l.skip(2), l.take(1).push(l[1])));
        assert(l.take(1).push(l[1]) =~= l.take(2));
        assert(seq![l[0]] =~= l.take(1));
        assert(l != seq!['.'] && l != seq!['.', '.']) by {
            if l == seq!['.'] {
                assert(l.len() == 1);
            }
            if l == seq!['.', '.'] {
                assert(l.len() == 2);
            }
        }
    }
}

/// Law: a lease token cannot lead outside the runtime home. The lease
/// file lies under `$XDG_RUNTIME_DIR/ides`, below it only plain names.
pub proof fn lemma_lease_path_stays_home(token: Seq<char>, x: Seq<char>, p: Seq<char>)
    requires
        lease_path_spec(token, Some(x)) == Ok::<Seq<char>, Seq<char>>(p),
    ensures
        path_starts_with(p, join(x, "ides"@)),
        all_normal(components(p).skip(components(join(x, "ides"@)).len() as int)),
{
    let (set_id, id) = split_token(token)->Some_0;
    let home = join(x, "ides"@);
    let d1 = join(home, set_id);
    let d = join(d1, "leases"@);
    let f = id + ".json"@;
    lemma_single_normal_safe(set_id);
    lemma_leases_safe();
    lemma_lease_file_safe(id);
    crate::path::lemma_join_components(home, set_id);
    crate::path::lemma_join_components(d1, "leases"@);
    crate::path::lemma_join_components(d, f);
    let ch = components(home);
    let cp = components(p);
    assert(cp =~= ch + components(set_id) + components("leases"@) + components(f));
    assert(cp.take(ch.len() as int) =~= ch);
    assert forall|i: int| 0 <= i < cp.skip(ch.len() as int).len() implies #[trigger] cp.skip(ch.len() as int)[i] is Normal by {
        let a = components(set_id);
        let b = components("leases"@);
        let c = components(f);
        let k = i;
        if k < a.len() {
            assert(cp.skip(ch.len() as int)[i] == a[k]);
        } else if k < a.len() + b.len() {
            assert(cp.skip(ch.len() as int)[i] == b[k - a.len()]);
        } else {
            assert(cp.skip(ch.len() as int)[i] == c[k - a.len() - b.len()]);
        }
    }
}

} // verus!

verus! {

/// Law: a token splits back into the set id and lease id it was made of,
/// when the set id holds no `:`.
pub proof fn lemma_token_round_trip(set_id: Seq<char>, id: Seq<char>)
    requires
        !set_id.contains(':'),
    ensures
        split_token(set_id + ":"@ + id) == Some((set_id, id)),
        crate::daemon::token_set_id_spec(set_id + ":"@ + id) == Some(set_id),
{
    reveal_strlit(":");
    let t = set_id + ":"@ + id;
    let k = set_id.len() as int;
    assert(t[k] == ':');
    assert forall|j: int| 0 <= j < k implies t[j] != ':' by {
        assert(t[j] == set_id[j]);
        if set_id[j] == ':' {
            assert(set_id.contains(':'));
        }
    }
    lemma_first_index(t, ':', k);
    assert(t.take(k) =~= set_id);
    assert(t.skip(k + 1) =~= id);
    assert(t.contains(':'));
}

} // verus!
