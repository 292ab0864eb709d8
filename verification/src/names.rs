use vstd::prelude::*;

use crate::syntax::{Name, names_view};

verus! {

/// The index of the first occurrence of `x` in `s`, or -1 when it does not occur.
pub open spec fn first_index(s: Seq<Name>, x: Name) -> int
    decreases s.len(),
{
    if s.len() == 0 {
        -1
    } else if s[0] == x {
        0
    } else {
        let i = first_index(s.drop_first(), x);
        if i < 0 { -1 } else { i + 1 }
    }
}

pub proof fn lemma_first_index(s: Seq<Name>, x: Name)
    ensures
        -1 <= first_index(s, x) < s.len(),
        first_index(s, x) >= 0 ==> s[first_index(s, x)] == x,
        first_index(s, x) >= 0 ==> forall|j: int| 0 <= j < first_index(s, x) ==> s[j] != x,
        first_index(s, x) < 0 <==> !s.contains(x),
    decreases s.len(),
{
    if s.len() > 0 {
        lemma_first_index(s.drop_first(), x);
        if s[0] != x {
            assert forall|j: int| 0 <= j < first_index(s, x) implies s[j] != x by {
                if j > 0 {
                    assert(s[j] == s.drop_first()[j - 1]);
                }
            }
            if s.contains(x) {
                let k = choose|k: int| 0 <= k < s.len() && s[k] == x;
                assert(s.drop_first()[k - 1] == x);
            }
            if s.drop_first().contains(x) {
                let k = choose|k: int| 0 <= k < s.drop_first().len() && s.drop_first()[k] == x;
                assert(s[k + 1] == x);
            }
        }
    }
}

proof fn lemma_first_index_found(s: Seq<Name>, x: Name, i: int)
    requires
        0 <= i < s.len(),
        s[i] == x,
        forall|j: int| 0 <= j < i ==> s[j] != x,
    ensures
        first_index(s, x) == i,
    decreases i,
{
    if i > 0 {
        lemma_first_index_found(s.drop_first(), x, i - 1);
    }
}

/// Position of the first string in `v` equal to `x`.
pub fn position(v: &Vec<String>, x: &String) -> (res: Option<usize>)
    ensures
        match res {
            Some(i) => i as int == first_index(names_view(v@), x@),
            None => first_index(names_view(v@), x@) == -1,
        },
{
    let mut i: usize = 0;
    while i < v.len()
        invariant
            i <= v.len(),
            forall|j: int| 0 <= j < i ==> names_view(v@)[j] != x@,
        decreases v.len() - i,
    {
        if v[i] == *x {
            proof { lemma_first_index_found(names_view(v@), x@, i as int); }
            return Some(i);
        }
        i += 1;
    }
    proof {
        lemma_first_index(names_view(v@), x@);
        if names_view(v@).contains(x@) {
            let k = choose|k: int| 0 <= k < names_view(v@).len() && names_view(v@)[k] == x@;
            assert(names_view(v@)[k] != x@);
        }
    }
    None
}

/// Whether `x` occurs in `v`.
pub fn contains_name(v: &Vec<String>, x: &String) -> (res: bool)
    ensures
        res == names_view(v@).contains(x@),
{
    let r = position(v, x);
    proof { lemma_first_index(names_view(v@), x@); }
    r.is_some()
}

/// A copy of a vector of strings.
pub fn copy_names(v: &Vec<String>) -> (res: Vec<String>)
    ensures
        names_view(res@) == names_view(v@),
{
    let mut res: Vec<String> = Vec::new();
    let mut i: usize = 0;
    while i < v.len()
        invariant
            i <= v.len(),
            res@.len() == i,
            names_view(res@) =~= names_view(v@).take(i as int),
        decreases v.len() - i,
    {
        let c = v[i].clone();
        res.push(c);
        proof {
            assert(names_view(res@) =~= names_view(v@).take(i + 1)) by {
                assert(res@[i as int]@ == v@[i as int]@);
            }
        }
        i += 1;
    }
    assert(names_view(v@).take(v.len() as int) =~= names_view(v@));
    res
}

pub proof fn lemma_push_to_set(s: Seq<Name>, x: Name)
    ensures
        s.push(x).to_set() == s.to_set().insert(x),
{
    assert forall|y: Name| #[trigger] s.push(x).to_set().contains(y) == s.to_set().insert(x).contains(y) by {
        if s.push(x).contains(y) && y != x {
            let k = choose|k: int| 0 <= k < s.push(x).len() && s.push(x)[k] == y;
            assert(s[k] == y);
        }
        if s.contains(y) {
            let k = choose|k: int| 0 <= k < s.len() && s[k] == y;
            assert(s.push(x)[k] == y);
        }
        if y == x {
            assert(s.push(x)[s.len() as int] == y);
        }
    }
    assert(s.push(x).to_set() =~= s.to_set().insert(x));
}

/// A finite set of names.
pub struct NameSet {
    names: Vec<String>,
}

impl View for NameSet {
    type V = Set<Name>;

    closed spec fn view(&self) -> Set<Name> {
        names_view(self.names@).to_set()
    }
}

impl NameSet {
    pub fn new() -> (s: NameSet)
        ensures
            s@ == Set::<Name>::empty(),
    {
        let s = NameSet { names: Vec::new() };
        assert(s@ =~= Set::<Name>::empty());
        s
    }

    pub fn contains(&self, x: &String) -> (res: bool)
        ensures
            res == self@.contains(x@),
    {
        contains_name(&self.names, x)
    }

    /// Adds `x`; the result says whether it was absent before.
    pub fn insert(&mut self, x: String) -> (res: bool)
        ensures
            res == !old(self)@.contains(x@),
            final(self)@ == old(self)@.insert(x@),
    {
        if contains_name(&self.names, &x) {
            assert(self@ =~= old(self)@.insert(x@));
            false
        } else {
            let ghost xv = x@;
            self.names.push(x);
            assert(names_view(self.names@) =~= names_view(old(self).names@).push(xv));
            proof { lemma_push_to_set(names_view(old(self).names@), xv); }
            true
        }
    }

    pub fn duplicate(&self) -> (res: NameSet)
        ensures
            res@ == self@,
    {
        NameSet { names: copy_names(&self.names) }
    }
}

/// The map that a list of entries denotes: a later entry overrides an earlier one.
pub open spec fn entries_map<V: DeepView>(s: Seq<(String, V)>) -> Map<Name, V::V>
    decreases s.len(),
{
    if s.len() == 0 {
        Map::empty()
    } else {
        entries_map(s.drop_last()).insert(s.last().0@, s.last().1.deep_view())
    }
}

proof fn lemma_entries_map_suffix<V: DeepView>(s: Seq<(String, V)>, i: int, k: Name)
    requires
        0 <= i <= s.len(),
        forall|j: int| i <= j < s.len() ==> s[j].0@ != k,
    ensures
        entries_map(s).contains_key(k) == entries_map(s.take(i)).contains_key(k),
        entries_map(s)[k] == entries_map(s.take(i))[k],
    decreases s.len() - i,
{
    if i < s.len() {
        assert(s.drop_last().take(i) =~= s.take(i));
        lemma_entries_map_suffix(s.drop_last(), i, k);
    } else {
        assert(s.take(i) =~= s);
    }
}

/// A finite map keyed by names.
pub struct NameMap<V> {
    entries: Vec<(String, V)>,
}

impl<V: DeepView> View for NameMap<V> {
    type V = Map<Name, V::V>;

    closed spec fn view(&self) -> Map<Name, V::V> {
        entries_map(self.entries@)
    }
}

impl<V: DeepView> NameMap<V> {
    pub fn new() -> (m: NameMap<V>)
        ensures
            m@ == Map::<Name, V::V>::empty(),
    {
        NameMap { entries: Vec::new() }
    }

    pub fn get(&self, k: &String) -> (res: Option<&V>)
        ensures
            match res {
                Some(v) => self@.contains_key(k@) && v.deep_view() == self@[k@],
                None => !self@.contains_key(k@),
            },
    {
        let mut i: usize = self.entries.len();
        while i > 0
            invariant
                i <= self.entries.len(),
                forall|j: int| i <= j < self.entries@.len() ==> self.entries@[j].0@ != k@,
            decreases i,
        {
            if self.entries[i - 1].0 == *k {
                proof {
                    lemma_entries_map_suffix(self.entries@, i as int, k@);
                    assert(self.entries@.take(i as int).drop_last() =~= self.entries@.take(i - 1));
                }
                return Some(&self.entries[i - 1].1);
            }
            i -= 1;
        }
        proof {
            lemma_entries_map_suffix(self.entries@, 0, k@);
        }
        None
    }

    pub fn contains_key(&self, k: &String) -> (res: bool)
        ensures
            res == self@.contains_key(k@),
    {
        self.get(k).is_some()
    }

    pub fn insert(&mut self, k: String, v: V)
        ensures
            final(self)@ == old(self)@.insert(k@, v.deep_view()),
    {
        self.entries.push((k, v));
        assert(self.entries@.drop_last() =~= old(self).entries@);
    }
}

impl NameMap<usize> {
    pub fn duplicate(&self) -> (res: NameMap<usize>)
        ensures
            res@ == self@,
    {
        let mut entries: Vec<(String, usize)> = Vec::new();
        let mut i: usize = 0;
        while i < self.entries.len()
            invariant
                i <= self.entries.len(),
                entries@.len() == i,
                forall|j: int| 0 <= j < i ==> entries@[j].0@ == self.entries@[j].0@ && entries@[j].1 == self.entries@[j].1,
            decreases self.entries.len() - i,
        {
            let e = &self.entries[i];
            entries.push((e.0.clone(), e.1));
            i += 1;
        }
        proof { lemma_entries_map_same(entries@, self.entries@); }
        NameMap { entries }
    }
}

impl NameMap<String> {
    pub fn duplicate(&self) -> (res: NameMap<String>)
        ensures
            res@ == self@,
    {
        let mut entries: Vec<(String, String)> = Vec::new();
        let mut i: usize = 0;
        while i < self.entries.len()
            invariant
                i <= self.entries.len(),
                entries@.len() == i,
                forall|j: int| 0 <= j < i ==> entries@[j].0@ == self.entries@[j].0@ && entries@[j].1@ == self.entries@[j].1@,
            decreases self.entries.len() - i,
        {
            let e = &self.entries[i];
            entries.push((e.0.clone(), e.1.clone()));
            i += 1;
        }
        proof { lemma_entries_map_same(entries@, self.entries@); }
        NameMap { entries }
    }
}

proof fn lemma_entries_map_same<V: DeepView>(a: Seq<(String, V)>, b: Seq<(String, V)>)
    requires
        a.len() == b.len(),
        forall|j: int| 0 <= j < a.len() ==> a[j].0@ == b[j].0@ && a[j].1.deep_view() == b[j].1.deep_view(),
    ensures
        entries_map(a) == entries_map(b),
    decreases a.len(),
{
    if a.len() > 0 {
        lemma_entries_map_same(a.drop_last(), b.drop_last());
    }
}

} // verus!
