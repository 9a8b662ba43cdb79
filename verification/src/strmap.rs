//! Ordered maps and sets keyed by strings. Entries are kept sorted by key,
//! with no key twice, so iteration goes in key order.
use vstd::prelude::*;

use crate::text::{chars_of, lemma_lex_lt_irreflexive, lemma_lex_lt_total, lemma_lex_lt_transitive, lex_lt, seq_eq, seq_lt, str_eq};

verus! {

/// Keys strictly increasing: sorted, and no key twice.
pub open spec fn keys_sorted<T>(s: Seq<(String, T)>) -> bool {
    forall|i: int, j: int| 0 <= i < j < s.len() ==> lex_lt(#[trigger] s[i].0@, #[trigger] s[j].0@)
}

/// Some entry of `s` has key `k`.
pub open spec fn has_key<T>(s: Seq<(String, T)>, k: Seq<char>) -> bool {
    exists|i: int| 0 <= i < s.len() && #[trigger] s[i].0@ == k
}

/// The index of the entry with key `k` (meaningful when `has_key(s, k)`).
pub open spec fn key_index<T>(s: Seq<(String, T)>, k: Seq<char>) -> int {
    choose|i: int| 0 <= i < s.len() && #[trigger] s[i].0@ == k
}

/// The value stored under `k`, if any.
pub open spec fn lookup<T>(s: Seq<(String, T)>, k: Seq<char>) -> Option<T> {
    if has_key(s, k) {
        Some(s[key_index(s, k)].1)
    } else {
        None
    }
}

/// The keys of `s`, in order.
pub open spec fn keys_of<T>(s: Seq<(String, T)>) -> Seq<Seq<char>> {
    s.map_values(|e: (String, T)| e.0@)
}

/// In a sorted sequence a key occurs at one index only.
pub proof fn lemma_key_unique<T>(s: Seq<(String, T)>, i: int, j: int)
    requires
        keys_sorted(s),
        0 <= i < s.len(),
        0 <= j < s.len(),
        s[i].0@ == s[j].0@,
    ensures
        i == j,
{
    if i < j {
        assert(lex_lt(s[i].0@, s[j].0@));
        lemma_lex_lt_irreflexive(s[i].0@);
    } else if j < i {
        assert(lex_lt(s[j].0@, s[i].0@));
        lemma_lex_lt_irreflexive(s[i].0@);
    }
}

/// The entry found by `lookup` is at the unique index holding the key.
pub proof fn lemma_lookup_at<T>(s: Seq<(String, T)>, i: int)
    requires
        keys_sorted(s),
        0 <= i < s.len(),
    ensures
        has_key(s, s[i].0@),
        key_index(s, s[i].0@) == i,
        lookup(s, s[i].0@) == Some(s[i].1),
{
    assert(has_key(s, s[i].0@));
    let j = key_index(s, s[i].0@);
    lemma_key_unique(s, i, j);
}

/// Law: after storing `value` under `key`, a lookup of `key` gives `value`
/// and a lookup of any other key gives what it gave before.
pub proof fn lemma_insert_lookup<T>(before: Seq<(String, T)>, after: Seq<(String, T)>, key: String, value: T)
    requires
        keys_sorted(before),
        keys_sorted(after),
        has_key(before, key@) ==> after == before.update(key_index(before, key@), (key, value)),
        !has_key(before, key@) ==> exists|i: int| 0 <= i <= before.len() && after == before.insert(i, (key, value)),
    ensures
        forall|k: Seq<char>| #[trigger] lookup(after, k) == if k == key@ {
            Some(value)
        } else {
            lookup(before, k)
        },
{
    if has_key(before, key@) {
        let idx = key_index(before, key@);
        lemma_lookup_at(after, idx);
        assert forall|k: Seq<char>| #[trigger] lookup(after, k) == if k == key@ {
            Some(value)
        } else {
            lookup(before, k)
        } by {
            if k != key@ {
                if has_key(before, k) {
                    let j = key_index(before, k);
                    lemma_lookup_at(before, j);
                    assert(after[j] == before[j]);
                    lemma_lookup_at(after, j);
                } else if has_key(after, k) {
                    let m = key_index(after, k);
                    assert(before[m].0@ == k);
                }
            }
        }
    } else {
        let i = choose|i: int| 0 <= i <= before.len() && after == before.insert(i, (key, value));
        assert(after[i] == (key, value));
        lemma_lookup_at(after, i);
        assert forall|k: Seq<char>| #[trigger] lookup(after, k) == if k == key@ {
            Some(value)
        } else {
            lookup(before, k)
        } by {
            if k != key@ {
                if has_key(before, k) {
                    let j = key_index(before, k);
                    lemma_lookup_at(before, j);
                    if j < i {
                        assert(after[j] == before[j]);
                        lemma_lookup_at(after, j);
                    } else {
                        assert(after[j + 1] == before[j]);
                        lemma_lookup_at(after, j + 1);
                    }
                } else if has_key(after, k) {
                    let m = key_index(after, k);
                    if m < i {
                        assert(before[m].0@ == k);
                    } else {
                        assert(m != i);
                        assert(before[m - 1].0@ == k);
                    }
                }
            }
        }
    }
}

/// A map from strings to values, iterated in key order.
#[derive(Debug)]
pub struct StrMap<T> {
    entries: Vec<(String, T)>,
}

impl<T> View for StrMap<T> {
    type V = Seq<(String, T)>;

    closed spec fn view(&self) -> Seq<(String, T)> {
        self.entries@
    }
}

impl<T> Default for StrMap<T> {
    /// An empty map.
    fn default() -> (r: Self)
        ensures
            r@ == Seq::<(String, T)>::empty(),
    {
        StrMap { entries: Vec::new() }
    }
}

impl<T> StrMap<T> {
    #[verifier::type_invariant]
    spec fn sorted(&self) -> bool {
        keys_sorted(self.entries@)
    }

    /// An empty map.
    pub fn new() -> (r: Self)
        ensures
            r@ == Seq::<(String, T)>::empty(),
    {
        StrMap { entries: Vec::new() }
    }

    /// The number of entries.
    pub fn len(&self) -> (r: usize)
        ensures
            r == self@.len(),
            keys_sorted(self@),
    {
        proof {
            use_type_invariant(self);
        }
        self.entries.len()
    }

    /// Whether the map is empty.
    pub fn is_empty(&self) -> (r: bool)
        ensures
            r == (self@.len() == 0),
            keys_sorted(self@),
    {
        self.len() == 0
    }

    /// All entries, in key order.
    pub fn entries(&self) -> (r: &Vec<(String, T)>)
        ensures
            r@ == self@,
            keys_sorted(self@),
    {
        proof {
            use_type_invariant(self);
        }
        &self.entries
    }

    /// The index of the entry with key `key`.
    pub fn find(&self, key: &str) -> (r: Option<usize>)
        ensures
            keys_sorted(self@),
            r.is_some() <==> has_key(self@, key@),
            r matches Some(i) ==> i < self@.len() && self@[i as int].0@ == key@ && key_index(
                self@,
                key@,
            ) == i,
    {
        proof {
            use_type_invariant(self);
        }
        let k = chars_of(key);
        let mut i: usize = 0;
        while i < self.entries.len()
            invariant
                k@ == key@,
                keys_sorted(self.entries@),
                i <= self.entries@.len(),
                forall|j: int| 0 <= j < i ==> (#[trigger] self.entries@[j]).0@ != key@,
            decreases self.entries.len() - i,
        {
            let e = chars_of(self.entries[i].0.as_str());
            if seq_eq(&e, &k) {
                proof {
                    lemma_lookup_at(self.entries@, i as int);
                }
                return Some(i);
            }
            i = i + 1;
        }
        None
    }

    /// Whether some entry has key `key`.
    pub fn contains_key(&self, key: &str) -> (r: bool)
        ensures
            r == has_key(self@, key@),
    {
        self.find(key).is_some()
    }

    /// The value stored under `key`.
    pub fn get(&self, key: &str) -> (r: Option<&T>)
        ensures
            r matches Some(v) ==> lookup(self@, key@) == Some(*v),
            r is None ==> lookup(self@, key@) is None,
    {
        match self.find(key) {
            Some(i) => {
                proof {
                    use_type_invariant(self);
                }
                Some(&self.entries[i].1)
            },
            None => None,
        }
    }

    /// Stores `value` under `key`, replacing any value it had.
    pub fn insert(&mut self, key: String, value: T)
        ensures
            keys_sorted(final(self)@),
            has_key(old(self)@, key@) ==> final(self)@ == old(self)@.update(
                key_index(old(self)@, key@),
                (key, value),
            ),
            !has_key(old(self)@, key@) ==> exists|i: int|
                0 <= i <= old(self)@.len() && final(self)@ == old(self)@.insert(i, (key, value)),
            forall|k: Seq<char>| #[trigger] lookup(final(self)@, k) == if k == key@ {
                Some(value)
            } else {
                lookup(old(self)@, k)
            },
    {
        proof {
            use_type_invariant(&*self);
        }
        let ghost old_entries = self.entries@;
        let k = chars_of(key.as_str());
        let mut v: Vec<(String, T)> = Vec::new();
        std::mem::swap(&mut v, &mut self.entries);
        assert(v@ == old_entries);
        let mut i: usize = 0;
        while i < v.len() && seq_lt(&chars_of(v[i].0.as_str()), &k)
            invariant
                v@ == old_entries,
                keys_sorted(old_entries),
                k@ == key@,
                i <= v@.len(),
                forall|j: int| 0 <= j < i ==> lex_lt((#[trigger] v@[j]).0@, key@),
            decreases v.len() - i,
        {
            i = i + 1;
        }
        if i < v.len() && str_eq(v[i].0.as_str(), key.as_str()) {
            proof {
                lemma_lookup_at(old_entries, i as int);
            }
            v.set(i, (key, value));
            proof {
                assert forall|a: int, b: int| 0 <= a < b < v@.len() implies lex_lt(
                    #[trigger] v@[a].0@,
                    #[trigger] v@[b].0@,
                ) by {
                    assert(lex_lt(old_entries[a].0@, old_entries[b].0@));
                }
            }
            proof {
                lemma_insert_lookup(old_entries, v@, key, value);
            }
            self.entries = v;
            return ;
        }
        proof {
            if i < v.len() {
                lemma_lex_lt_total(v@[i as int].0@, key@);
            }
            assert forall|j: int| 0 <= j < v@.len() implies (#[trigger] v@[j]).0@ != key@ by {
                if j < i {
                    lemma_lex_lt_irreflexive(key@);
                } else {
                    assert(lex_lt(key@, v@[i as int].0@));
                    if j > i {
                        assert(lex_lt(v@[i as int].0@, v@[j].0@));
                        lemma_lex_lt_transitive(key@, v@[i as int].0@, v@[j].0@);
                    }
                    lemma_lex_lt_irreflexive(key@);
                }
            }
            assert forall|j: int| i <= j < v@.len() implies lex_lt(key@, (#[trigger] v@[j]).0@) by {
                assert(lex_lt(key@, v@[i as int].0@));
                if j > i {
                    assert(lex_lt(v@[i as int].0@, v@[j].0@));
                    lemma_lex_lt_transitive(key@, v@[i as int].0@, v@[j].0@);
                }
            }
        }
        let ghost before = v@;
        v.insert(i, (key, value));
        proof {
            assert(v@ == before.insert(i as int, (key, value)));
            assert forall|a: int, b: int| 0 <= a < b < v@.len() implies lex_lt(
                #[trigger] v@[a].0@,
                #[trigger] v@[b].0@,
            ) by {
                if b < i {
                    assert(lex_lt(before[a].0@, before[b].0@));
                } else if b == i {
                    assert(v@[a] == before[a]);
                } else if a == i {
                    assert(v@[b] == before[b - 1]);
                } else if a < i {
                    assert(v@[b] == before[b - 1]);
                    assert(lex_lt(before[a].0@, key@));
                    assert(lex_lt(key@, before[b - 1].0@));
                    lemma_lex_lt_transitive(before[a].0@, key@, before[b - 1].0@);
                } else {
                    assert(lex_lt(before[a - 1].0@, before[b - 1].0@));
                }
            }
            lemma_insert_lookup(old_entries, v@, key, value);
        }
        self.entries = v;
    }
}

/// A set of strings, iterated in order.
#[derive(Debug)]
pub struct StrSet {
    items: Vec<String>,
}

/// Strictly increasing strings.
pub open spec fn names_sorted(s: Seq<String>) -> bool {
    forall|i: int, j: int| 0 <= i < j < s.len() ==> lex_lt(#[trigger] s[i]@, #[trigger] s[j]@)
}

/// The views of a sequence of strings.
pub open spec fn views(s: Seq<String>) -> Seq<Seq<char>> {
    s.map_values(|x: String| x@)
}

/// The set of the views of a sequence of strings.
pub open spec fn name_set(s: Seq<String>) -> Set<Seq<char>> {
    views(s).to_set()
}

impl View for StrSet {
    type V = Seq<String>;

    closed spec fn view(&self) -> Seq<String> {
        self.items@
    }
}

impl StrSet {
    #[verifier::type_invariant]
    spec fn sorted(&self) -> bool {
        names_sorted(self.items@)
    }

    /// An empty set.
    pub fn new() -> (r: Self)
        ensures
            r@ == Seq::<String>::empty(),
    {
        StrSet { items: Vec::new() }
    }

    /// The members, in order.
    pub fn items(&self) -> (r: &Vec<String>)
        ensures
            r@ == self@,
            names_sorted(self@),
    {
        proof {
            use_type_invariant(self);
        }
        &self.items
    }

    /// The number of members.
    pub fn len(&self) -> (r: usize)
        ensures
            r == self@.len(),
            names_sorted(self@),
    {
        proof {
            use_type_invariant(self);
        }
        self.items.len()
    }

    /// Whether `name` is a member.
    pub fn contains(&self, name: &str) -> (r: bool)
        ensures
            r == name_set(self@).contains(name@),
            names_sorted(self@),
    {
        proof {
            use_type_invariant(self);
        }
        let k = chars_of(name);
        let mut i: usize = 0;
        while i < self.items.len()
            invariant
                k@ == name@,
                names_sorted(self.items@),
                i <= self.items@.len(),
                forall|j: int| 0 <= j < i ==> (#[trigger] self.items@[j])@ != name@,
            decreases self.items.len() - i,
        {
            let e = chars_of(self.items[i].as_str());
            if seq_eq(&e, &k) {
                proof {
                    assert(views(self.items@)[i as int] == name@);
                }
                return true;
            }
            i = i + 1;
        }
        proof {
            if name_set(self.items@).contains(name@) {
                let j = choose|j: int| 0 <= j < views(self.items@).len() && views(self.items@)[j] == name@;
                assert(self.items@[j]@ == name@);
            }
        }
        false
    }

    /// Adds `name`; `true` when it was not a member before.
    pub fn insert(&mut self, name: String) -> (r: bool)
        ensures
            names_sorted(final(self)@),
            r == !name_set(old(self)@).contains(name@),
            name_set(final(self)@) == name_set(old(self)@).insert(name@),
            r ==> final(self)@.len() == old(self)@.len() + 1,
            !r ==> final(self)@ == old(self)@,
    {
        proof {
            use_type_invariant(&*self);
        }
        let ghost old_items = self.items@;
        let k = chars_of(name.as_str());
        let mut v: Vec<String> = Vec::new();
        std::mem::swap(&mut v, &mut self.items);
        let mut i: usize = 0;
        while i < v.len() && seq_lt(&chars_of(v[i].as_str()), &k)
            invariant
                v@ == old_items,
                names_sorted(old_items),
                k@ == name@,
                i <= v@.len(),
                forall|j: int| 0 <= j < i ==> lex_lt((#[trigger] v@[j])@, name@),
            decreases v.len() - i,
        {
            i = i + 1;
        }
        if i < v.len() && str_eq(v[i].as_str(), name.as_str()) {
            proof {
                assert(views(old_items)[i as int] == name@);
                assert(name_set(old_items).insert(name@) =~= name_set(old_items));
            }
            self.items = v;
            return false;
        }
        proof {
            if i < v.len() {
                lemma_lex_lt_total(v@[i as int]@, name@);
            }
            assert forall|j: int| 0 <= j < v@.len() implies (#[trigger] v@[j])@ != name@ by {
                if j < i {
                    lemma_lex_lt_irreflexive(name@);
                } else {
                    assert(lex_lt(name@, v@[i as int]@));
                    if j > i {
                        assert(lex_lt(v@[i as int]@, v@[j]@));
                        lemma_lex_lt_transitive(name@, v@[i as int]@, v@[j]@);
                    }
                    lemma_lex_lt_irreflexive(name@);
                }
            }
            if name_set(old_items).contains(name@) {
                let j = choose|j: int| 0 <= j < views(old_items).len() && views(old_items)[j] == name@;
                assert(v@[j]@ == name@);
            }
        }
        let ghost before = v@;
        v.insert(i, name);
        proof {
            assert forall|a: int, b: int| 0 <= a < b < v@.len() implies lex_lt(
                #[trigger] v@[a]@,
                #[trigger] v@[b]@,
            ) by {
                if b < i {
                    assert(lex_lt(before[a]@, before[b]@));
                } else if b == i {
                    assert(v@[a] == before[a]);
                } else if a == i {
                    assert(v@[b] == before[b - 1]);
                    if b - 1 > i {
                        assert(lex_lt(before[i as int]@, before[b - 1]@));
                    }
                    if b - 1 > i as int {
                        assert(lex_lt(name@, before[i as int]@));
                        lemma_lex_lt_transitive(name@, before[i as int]@, before[b - 1]@);
                    }
                } else if a < i {
                    assert(v@[b] == before[b - 1]);
                    assert(lex_lt(before[a]@, name@));
                    assert(lex_lt(name@, before[i as int]@));
                    if b - 1 > i {
                        assert(lex_lt(before[i as int]@, before[b - 1]@));
                        lemma_lex_lt_transitive(name@, before[i as int]@, before[b - 1]@);
                    }
                    lemma_lex_lt_transitive(before[a]@, name@, before[b - 1]@);
                } else {
                    assert(lex_lt(before[a - 1]@, before[b - 1]@));
                }
            }
            assert(views(v@) =~= views(before).insert(i as int, name@));
            assert(name_set(v@) =~= name_set(before).insert(name@)) by {
                assert forall|x: Seq<char>| name_set(v@).contains(x) implies name_set(
                    before,
                ).insert(name@).contains(x) by {
                    let j = choose|j: int| 0 <= j < views(v@).len() && views(v@)[j] == x;
                    if j < i {
                        assert(views(before)[j] == x);
                    } else if j > i {
                        assert(views(before)[j - 1] == x);
                    }
                }
                assert forall|x: Seq<char>| name_set(before).insert(name@).contains(x) implies name_set(
                    v@,
                ).contains(x) by {
                    if x == name@ {
                        assert(views(v@)[i as int] == x);
                    } else {
                        let j = choose|j: int| 0 <= j < views(before).len() && views(before)[j] == x;
                        if j < i {
                            assert(views(v@)[j] == x);
                        } else {
                            assert(views(v@)[j + 1] == x);
                        }
                    }
                }
            }
        }
        self.items = v;
        true
    }
}

} // verus!

verus! {

/// A sorted sequence of names holds each name once.
pub proof fn lemma_names_sorted_card(s: Seq<String>)
    requires
        names_sorted(s),
    ensures
        views(s).no_duplicates(),
        name_set(s).finite(),
        name_set(s).len() == s.len(),
{
    assert forall|i: int, j: int| 0 <= i < views(s).len() && 0 <= j < views(s).len() && i != j implies views(s)[i] != views(s)[j] by {
        if i < j {
            assert(lex_lt(s[i]@, s[j]@));
            lemma_lex_lt_irreflexive(s[i]@);
        } else {
            assert(lex_lt(s[j]@, s[i]@));
            lemma_lex_lt_irreflexive(s[j]@);
        }
    }
    views(s).unique_seq_to_set();
    vstd::seq_lib::seq_to_set_is_finite(views(s));
}

/// A sorted sequence whose names all come from two sequences is no longer
/// than the two together.
pub proof fn lemma_names_bound(s: Seq<String>, a: Seq<Seq<char>>, b: Seq<Seq<char>>)
    requires
        names_sorted(s),
        name_set(s).subset_of(a.to_set().union(b.to_set())),
    ensures
        s.len() <= a.len() + b.len(),
{
    lemma_names_sorted_card(s);
    vstd::seq_lib::seq_to_set_is_finite(a);
    vstd::seq_lib::seq_to_set_is_finite(b);
    vstd::set_lib::lemma_len_union(a.to_set(), b.to_set());
    vstd::set_lib::lemma_len_subset(name_set(s), a.to_set().union(b.to_set()));
    a.lemma_cardinality_of_set();
    b.lemma_cardinality_of_set();
}

} // verus!
