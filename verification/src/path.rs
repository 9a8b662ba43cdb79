//! Unix paths as `std::path::Path` reads them: components, joining and
//! prefixes, over strings.
use vstd::prelude::*;

use crate::text::{cat, cat3, chars_of, own};

verus! {

/// A component of a path.
pub enum Comp {
    Root,
    Cur,
    Parent,
    Normal(Seq<char>),
}

/// The components a segment between separators contributes: none for an
/// empty segment or `.`, `..` for `..`, else the segment itself.
pub open spec fn seg_comp(seg: Seq<char>) -> Seq<Comp> {
    if seg.len() == 0 || seg == seq!['.'] {
        seq![]
    } else if seg == seq!['.', '.'] {
        seq![Comp::Parent]
    } else {
        seq![Comp::Normal(seg)]
    }
}

/// The components of `rest`, the segment read so far being `cur`.
pub open spec fn scan(rest: Seq<char>, cur: Seq<char>) -> Seq<Comp>
    decreases rest.len(),
{
    if rest.len() == 0 {
        seg_comp(cur)
    } else if rest[0] == '/' {
        seg_comp(cur) + scan(rest.drop_first(), seq![])
    } else {
        scan(rest.drop_first(), cur.push(rest[0]))
    }
}

/// The path starts at the root.
pub open spec fn has_root(s: Seq<char>) -> bool {
    s.len() > 0 && s[0] == '/'
}

/// A relative path that starts with `.` keeps it as a first component.
pub open spec fn include_cur_dir(s: Seq<char>) -> bool {
    !has_root(s) && s.len() > 0 && s[0] == '.' && (s.len() == 1 || s[1] == '/')
}

/// The components of a path (`Path::components`).
pub open spec fn components(s: Seq<char>) -> Seq<Comp> {
    (if has_root(s) {
        seq![Comp::Root]
    } else {
        seq![]
    }) + (if include_cur_dir(s) {
        seq![Comp::Cur]
    } else {
        seq![]
    }) + scan(s, seq![])
}

/// All components are plain names.
pub open spec fn all_normal(c: Seq<Comp>) -> bool {
    forall|i: int| 0 <= i < c.len() ==> #[trigger] c[i] is Normal
}

/// A relative path of plain names only: no root, no `.` and no `..`
/// component, and at least one component.
pub open spec fn safe_relative(s: Seq<char>) -> bool {
    !has_root(s) && components(s).len() > 0 && all_normal(components(s))
}

/// `PathBuf::join` on Unix: an absolute `b` replaces `a`; otherwise `b` is
/// appended, after a `/` unless `a` is empty or ends with one.
pub open spec fn join(a: Seq<char>, b: Seq<char>) -> Seq<char> {
    if has_root(b) {
        b
    } else if a.len() == 0 || a.last() == '/' {
        a + b
    } else {
        a + seq!['/'] + b
    }
}

/// `base`'s components start `path`'s (`Path::starts_with`).
pub open spec fn path_starts_with(path: Seq<char>, base: Seq<char>) -> bool {
    let p = components(path);
    let b = components(base);
    b.len() <= p.len() && p.take(b.len() as int) == b
}

/// A path component.
pub enum Component {
    RootDir,
    CurDir,
    ParentDir,
    Normal(String),
}

impl View for Component {
    type V = Comp;

    open spec fn view(&self) -> Comp {
        match self {
            Component::RootDir => Comp::Root,
            Component::CurDir => Comp::Cur,
            Component::ParentDir => Comp::Parent,
            Component::Normal(s) => Comp::Normal(s@),
        }
    }
}

/// The views of a list of components.
pub open spec fn comp_views(v: Seq<Component>) -> Seq<Comp> {
    v.map_values(|c: Component| c@)
}

/// Pushes the component of a finished segment.
fn push_segment(out: &mut Vec<Component>, cur: &Vec<char>)
    ensures
        comp_views(final(out)@) == comp_views(old(out)@) + seg_comp(cur@),
{
    let ghost before = comp_views(out@);
    if cur.len() == 0 || (cur.len() == 1 && cur[0] == '.') {
        proof {
            if cur.len() == 1 {
                assert(cur@ =~= seq!['.']);
            }
        }
        assert(comp_views(out@) =~= before + seg_comp(cur@));
    } else if cur.len() == 2 && cur[0] == '.' && cur[1] == '.' {
        assert(cur@ =~= seq!['.', '.']);
        out.push(Component::ParentDir);
        assert(comp_views(out@) =~= before + seg_comp(cur@));
    } else {
        proof {
            if cur@ == seq!['.'] {
                assert(cur@.len() == 1 && cur@[0] == '.');
            }
            if cur@ == seq!['.', '.'] {
                assert(cur@.len() == 2);
            }
        }
        out.push(Component::Normal(crate::text::string_of(cur, 0, cur.len())));
        assert(cur@.subrange(0, cur@.len() as int) =~= cur@);
        assert(comp_views(out@) =~= before + seg_comp(cur@));
    }
}

/// The components of `s` (`Path::components`).
pub fn path_components(s: &str) -> (r: Vec<Component>)
    ensures
        comp_views(r@) == components(s@),
{
    let cs = chars_of(s);
    let mut out: Vec<Component> = Vec::new();
    let rooted = cs.len() > 0 && cs[0] == '/';
    if rooted {
        out.push(Component::RootDir);
    }
    if !rooted && cs.len() > 0 && cs[0] == '.' && (cs.len() == 1 || cs[1] == '/') {
        out.push(Component::CurDir);
    }
    proof {
        assert(comp_views(out@) + scan(cs@.skip(0), seq![]) =~= components(s@)) by {
            assert(cs@.skip(0) =~= cs@);
        }
    }
    let mut cur: Vec<char> = Vec::new();
    let mut i: usize = 0;
    while i < cs.len()
        invariant
            cs@ == s@,
            i <= cs@.len(),
            comp_views(out@) + scan(cs@.skip(i as int), cur@) == components(s@),
        decreases cs.len() - i,
    {
        let c = cs[i];
        assert(cs@.skip(i as int)[0] == c);
        assert(cs@.skip(i as int).drop_first() =~= cs@.skip(i + 1));
        if c == '/' {
            let ghost before = comp_views(out@);
            let ghost old_cur = cur@;
            push_segment(&mut out, &cur);
            cur = Vec::new();
            assert(cur@ =~= Seq::<char>::empty());
            assert(comp_views(out@) + scan(cs@.skip(i + 1), cur@) =~= before + (seg_comp(old_cur) + scan(cs@.skip(i + 1), seq![])));
        } else {
            cur.push(c);
        }
        i = i + 1;
    }
    assert(cs@.skip(i as int) =~= Seq::<char>::empty());
    push_segment(&mut out, &cur);
    out
}

/// Whether `s` is relative and made of plain names only.
pub fn is_safe_relative_path(s: &str) -> (r: bool)
    ensures
        r == safe_relative(s@),
{
    let cs = chars_of(s);
    if cs.len() > 0 && cs[0] == '/' {
        return false;
    }
    let comps = path_components(s);
    if comps.len() == 0 {
        return false;
    }
    let mut i: usize = 0;
    while i < comps.len()
        invariant
            i <= comps@.len(),
            comp_views(comps@) == components(s@),
            forall|j: int| 0 <= j < i ==> (#[trigger] comp_views(comps@)[j]) is Normal,
        decreases comps.len() - i,
    {
        match &comps[i] {
            Component::Normal(_) => {},
            _ => {
                assert(!(comp_views(comps@)[i as int] is Normal));
                return false;
            },
        }
        i = i + 1;
    }
    true
}

/// `PathBuf::join`, rendered as a string.
pub fn path_join(a: &str, b: &str) -> (r: String)
    ensures
        r@ == join(a@, b@),
{
    let bs = chars_of(b);
    if bs.len() > 0 && bs[0] == '/' {
        return own(b);
    }
    let as_ = chars_of(a);
    if as_.len() == 0 || as_[as_.len() - 1] == '/' {
        cat(a, b)
    } else {
        assert(a@ + seq!['/'] + b@ == a@ + "/"@ + b@) by {
            reveal_strlit("/");
        }
        cat3(a, "/", b)
    }
}

/// Whether two components are equal.
fn comp_eq(x: &Component, y: &Component) -> (r: bool)
    ensures
        r == (x@ == y@),
{
    match (x, y) {
        (Component::RootDir, Component::RootDir) => true,
        (Component::CurDir, Component::CurDir) => true,
        (Component::ParentDir, Component::ParentDir) => true,
        (Component::Normal(a), Component::Normal(b)) => crate::text::str_eq(a.as_str(), b.as_str()),
        _ => false,
    }
}

/// Whether `base`'s components start `path`'s (`Path::starts_with`).
pub fn starts_with(path: &str, base: &str) -> (r: bool)
    ensures
        r == path_starts_with(path@, base@),
{
    let p = path_components(path);
    let b = path_components(base);
    if b.len() > p.len() {
        return false;
    }
    let mut i: usize = 0;
    while i < b.len()
        invariant
            b.len() <= p.len(),
            i <= b@.len(),
            comp_views(p@) == components(path@),
            comp_views(b@) == components(base@),
            forall|j: int| 0 <= j < i ==> comp_views(p@)[j] == comp_views(b@)[j],
        decreases b.len() - i,
    {
        if !comp_eq(&p[i], &b[i]) {
            assert(comp_views(p@).take(b@.len() as int)[i as int] != comp_views(b@)[i as int]);
            return false;
        }
        i = i + 1;
    }
    assert(comp_views(p@).take(b@.len() as int) =~= comp_views(b@));
    true
}

/// A separator ends the segment in progress: the components of
/// `x / y` are those of `x` followed by those of `y`.
pub proof fn lemma_scan_sep(x: Seq<char>, y: Seq<char>, cur: Seq<char>)
    ensures
        scan(x + seq!['/'] + y, cur) == scan(x, cur) + scan(y, seq![]),
    decreases x.len(),
{
    let s = x + seq!['/'] + y;
    if x.len() == 0 {
        assert(s[0] == '/');
        assert(s.drop_first() =~= y);
        assert(scan(x, cur) == seg_comp(cur));
    } else {
        assert(s[0] == x[0]);
        assert(s.drop_first() =~= x.drop_first() + seq!['/'] + y);
        if x[0] == '/' {
            lemma_scan_sep(x.drop_first(), y, seq![]);
            assert(scan(s, cur) =~= seg_comp(cur) + (scan(x.drop_first(), seq![]) + scan(y, seq![])));
        } else {
            lemma_scan_sep(x.drop_first(), y, cur.push(x[0]));
        }
    }
}

/// A safe relative path has no root and no leading `.`.
pub proof fn lemma_safe_relative_components(b: Seq<char>)
    requires
        safe_relative(b),
    ensures
        components(b) == scan(b, seq![]),
        !include_cur_dir(b),
{
    if include_cur_dir(b) {
        assert(components(b)[0] == Comp::Cur);
    }
    assert(components(b) =~= scan(b, seq![]));
}

/// Joining a safe relative path appends its components.
pub proof fn lemma_join_components(a: Seq<char>, b: Seq<char>)
    requires
        safe_relative(b),
    ensures
        components(join(a, b)) == components(a) + components(b),
{
    lemma_safe_relative_components(b);
    if a.len() == 0 {
        assert(join(a, b) =~= b);
        assert(components(a) =~= Seq::<Comp>::empty()) by {
            assert(scan(a, seq![]) == seg_comp(seq![]));
        }
        assert(components(b) =~= components(a) + components(b));
    } else if a.last() == '/' {
        let a2 = a.drop_last();
        assert(a =~= a2 + seq!['/'] + Seq::<char>::empty());
        assert(join(a, b) =~= a2 + seq!['/'] + b);
        lemma_scan_sep(a2, b, seq![]);
        lemma_scan_sep(a2, Seq::<char>::empty(), seq![]);
        assert(scan(Seq::<char>::empty(), seq![]) =~= Seq::<Comp>::empty());
        let j = join(a, b);
        if a2.len() == 0 {
            assert(has_root(j) && has_root(a));
        } else {
            assert(j[0] == a[0]);
            if a2.len() == 1 {
                assert(j[1] == '/' && a[1] == '/');
            } else {
                assert(j[1] == a[1]);
            }
            assert(has_root(j) == has_root(a));
            assert(include_cur_dir(j) == include_cur_dir(a));
        }
        assert(components(j) =~= components(a) + components(b));
    } else {
        let j = join(a, b);
        assert(j =~= a + seq!['/'] + b);
        lemma_scan_sep(a, b, seq![]);
        assert(j[0] == a[0]);
        if a.len() == 1 {
            assert(j[1] == '/');
        } else {
            assert(j[1] == a[1]);
        }
        assert(has_root(j) == has_root(a));
        assert(include_cur_dir(j) == include_cur_dir(a));
        assert(components(j) =~= components(a) + components(b));
    }
}

/// A nonempty name without `/` that is neither `.` nor `..` is a safe
/// relative path of one component.
pub proof fn lemma_plain_name_safe(s: Seq<char>)
    requires
        s.len() > 0,
        !s.contains('/'),
        s != seq!['.'],
        s != seq!['.', '.'],
    ensures
        safe_relative(s),
        components(s) == seq![Comp::Normal(s)],
{
    crate::leases::lemma_scan_no_sep(s, seq![]);
    assert(seq![] + s =~= s);
    assert(s[0] != '/') by {
        assert(s.contains(s[0]));
    }
    if include_cur_dir(s) {
        if s.len() == 1 {
            assert(s =~= seq!['.']);
        } else {
            assert(s.contains(s[1]));
        }
    }
    assert(components(s) =~= seq![Comp::Normal(s)]);
}

/// Law: joining a safe relative path to `a` stays under `a`, adding only
/// plain names.
pub proof fn lemma_join_stays_under(a: Seq<char>, b: Seq<char>)
    requires
        safe_relative(b),
    ensures
        path_starts_with(join(a, b), a),
        all_normal(components(join(a, b)).skip(components(a).len() as int)),
{
    lemma_join_components(a, b);
    let ca = components(a);
    let cj = components(join(a, b));
    assert(cj.take(ca.len() as int) =~= ca);
    assert(cj.skip(ca.len() as int) =~= components(b));
}

} // verus!
