//! String-keyed maps and sets that keep the order in which keys were first inserted.

use vstd::prelude::*;
use crate::text::same_text;

verus! {

/// `m` holds a pair with key `k`.
pub open spec fn holds<T>(m: Seq<(Seq<char>, T)>, k: Seq<char>) -> bool {
    exists|i: int| 0 <= i < m.len() && #[trigger] m[i].0 == k
}

/// The position of the pair with key `k`.
pub open spec fn at<T>(m: Seq<(Seq<char>, T)>, k: Seq<char>) -> int {
    choose|i: int| 0 <= i < m.len() && #[trigger] m[i].0 == k
}

/// What `m` holds under `k`, if anything.
pub open spec fn lookup<T>(m: Seq<(Seq<char>, T)>, k: Seq<char>) -> Option<T> {
    if holds(m, k) {
        Some(m[at(m, k)].1)
    } else {
        None
    }
}

/// `m` with `v` under `k`: an existing key keeps its place, a new one goes last.
pub open spec fn put<T>(m: Seq<(Seq<char>, T)>, k: Seq<char>, v: T) -> Seq<(Seq<char>, T)> {
    if holds(m, k) {
        m.update(at(m, k), (k, v))
    } else {
        m.push((k, v))
    }
}

/// `m` without `k`; the other pairs keep their order.
pub open spec fn without<T>(m: Seq<(Seq<char>, T)>, k: Seq<char>) -> Seq<(Seq<char>, T)> {
    if holds(m, k) {
        m.remove(at(m, k))
    } else {
        m
    }
}

/// No key occurs twice.
pub open spec fn unique<T>(m: Seq<(Seq<char>, T)>) -> bool {
    forall|i: int, j: int| 0 <= i < j < m.len() ==> (#[trigger] m[i]).0 != (#[trigger] m[j]).0
}

/// With no key twice, the pair at `i` is the one that its key finds.
pub proof fn lemma_at<T>(m: Seq<(Seq<char>, T)>, i: int)
    requires
        unique(m),
        0 <= i < m.len(),
    ensures
        holds(m, m[i].0),
        at(m, m[i].0) == i,
        lookup(m, m[i].0) == Some(m[i].1),
{
}

/// What was put under a key is found there, and nothing else changes.
pub proof fn lemma_put<T>(m: Seq<(Seq<char>, T)>, k: Seq<char>, v: T, j: Seq<char>)
    requires
        unique(m),
    ensures
        unique(put(m, k, v)),
        holds(put(m, k, v), j) == (j == k || holds(m, j)),
        lookup(put(m, k, v), j) == (if j == k { Some(v) } else { lookup(m, j) }),
{
    let p = put(m, k, v);
    let spot = if holds(m, k) { at(m, k) } else { m.len() as int };
    assert(p[spot] == (k, v));
    lemma_at(p, spot);
    if j != k && holds(m, j) {
        let i = at(m, j);
        assert(p[i] == m[i]);
        lemma_at(p, i);
    }
    if j != k && holds(p, j) {
        let i = at(p, j);
        assert(p[i] == m[i]);
    }
}

/// What a map holds under a key is what stands there with that key, and nothing where no
/// pair has it.
pub proof fn law_lookup_finds<T>(m: Seq<(Seq<char>, T)>, k: Seq<char>, v: T)
    requires
        unique(m),
    ensures
        lookup(m, k) == Some(v) <==> m.contains((k, v)),
        lookup(m, k) is None <==> forall|i: int| 0 <= i < m.len() ==> (#[trigger] m[i]).0 != k,
        holds(m, k) <==> lookup(m, k) is Some,
{
    if m.contains((k, v)) {
        let i = choose|i: int| 0 <= i < m.len() && m[i] == (k, v);
        lemma_at(m, i);
    }
    if holds(m, k) {
        let i = at(m, k);
        assert(m[i] == (k, lookup(m, k)->0));
    }
}

/// Putting under a key that is there changes the value at its place; a new key goes last.
/// The other pairs stay where they are.
pub proof fn law_put_order<T>(m: Seq<(Seq<char>, T)>, k: Seq<char>, v: T)
    requires
        unique(m),
    ensures
        holds(m, k) ==> put(m, k, v).len() == m.len(),
        !holds(m, k) ==> put(m, k, v) == m.push((k, v)),
        forall|i: int|
            0 <= i < m.len() ==> (#[trigger] put(m, k, v)[i]) == (if m[i].0 == k {
                (k, v)
            } else {
                m[i]
            }),
{
    if holds(m, k) {
        assert forall|i: int| 0 <= i < m.len() && m[i].0 == k implies i == at(m, k) by {
            lemma_at(m, i);
        }
    }
}

/// A key that was taken out is found no more, and nothing else changes.
pub proof fn lemma_without<T>(m: Seq<(Seq<char>, T)>, k: Seq<char>, j: Seq<char>)
    requires
        unique(m),
    ensures
        unique(without(m, k)),
        holds(without(m, k), j) == (j != k && holds(m, j)),
        lookup(without(m, k), j) == (if j == k { None } else { lookup(m, j) }),
{
    let p = without(m, k);
    if holds(m, k) {
        let spot = at(m, k);
        assert forall|i: int| 0 <= i < p.len() implies #[trigger] p[i] == m[if i < spot { i } else { i + 1 }] by {}
        if j != k && holds(m, j) {
            let i = at(m, j);
            let n = if i < spot { i } else { i - 1 };
            assert(p[n] == m[i]);
            lemma_at(p, n);
        }
        if holds(p, j) {
            let n = at(p, j);
            let i = if n < spot { n } else { n + 1 };
            assert(p[n] == m[i]);
            assert(i != spot);
        }
    }
}

/// Taking a key out keeps exactly the pairs with another key.
pub proof fn lemma_without_filter<T>(m: Seq<(Seq<char>, T)>, k: Seq<char>)
    requires
        unique(m),
    ensures
        without(m, k) == m.filter(|p: (Seq<char>, T)| p.0 != k),
    decreases m.len(),
{
    let other = |p: (Seq<char>, T)| p.0 != k;
    reveal(Seq::filter);
    if m.len() > 0 {
        let front = m.drop_last();
        lemma_without_filter(front, k);
        if m.last().0 == k {
            lemma_at(m, m.len() - 1);
            assert(!holds(front, k)) by {
                if holds(front, k) {
                    assert(m[at(front, k)].0 == k);
                }
            }
            assert(without(m, k) =~= front);
        } else {
            if holds(m, k) {
                let i = at(m, k);
                assert(front[i].0 == k);
                lemma_at(front, i);
                lemma_at(m, i);
                assert(without(m, k) =~= without(front, k).push(m.last()));
            } else {
                assert(!holds(front, k)) by {
                    if holds(front, k) {
                        assert(m[at(front, k)].0 == k);
                    }
                }
                assert(m =~= front.push(m.last()));
            }
        }
    }
}

/// Predicates that agree on the items of `s` filter it alike.
pub proof fn lemma_filter_agree<A>(s: Seq<A>, f: spec_fn(A) -> bool, g: spec_fn(A) -> bool)
    requires
        forall|i: int| 0 <= i < s.len() ==> f(#[trigger] s[i]) == g(s[i]),
    ensures
        s.filter(f) == s.filter(g),
    decreases s.len(),
{
    reveal(Seq::filter);
    if s.len() > 0 {
        let front = s.drop_last();
        assert forall|i: int| 0 <= i < front.len() implies f(#[trigger] front[i]) == g(front[i]) by {
            assert(front[i] == s[i]);
        }
        lemma_filter_agree(front, f, g);
        assert(s[s.len() - 1] == s.last());
    }
}

/// Filtering twice keeps what both predicates accept.
pub proof fn lemma_filter_twice<A>(s: Seq<A>, f: spec_fn(A) -> bool, g: spec_fn(A) -> bool)
    ensures
        s.filter(f).filter(g) == s.filter(|x: A| f(x) && g(x)),
    decreases s.len(),
{
    reveal(Seq::filter);
    if s.len() > 0 {
        let front = s.drop_last();
        lemma_filter_twice(front, f, g);
        if f(s.last()) {
            front.filter(f).lemma_filter_push(s.last(), g);
        }
    }
}

/// Filtering keeps keys from occurring twice.
pub proof fn lemma_filter_unique<T>(m: Seq<(Seq<char>, T)>, f: spec_fn((Seq<char>, T)) -> bool)
    requires
        unique(m),
    ensures
        unique(m.filter(f)),
        forall|i: int| 0 <= i < m.filter(f).len() ==> m.contains(#[trigger] m.filter(f)[i]) && f(m.filter(f)[i]),
        forall|i: int| 0 <= i < m.len() && f(#[trigger] m[i]) ==> m.filter(f).contains(m[i]),
    decreases m.len(),
{
    reveal(Seq::filter);
    broadcast use vstd::seq_lib::group_filter_ensures;
    if m.len() > 0 {
        let front = m.drop_last();
        lemma_filter_unique(front, f);
        let kept = front.filter(f);
        let out = m.filter(f);
        assert forall|i: int| 0 <= i < kept.len() implies m.contains(#[trigger] kept[i]) && kept[i].0 != m.last().0 by {
            assert(front.contains(kept[i]));
            let j = choose|j: int| 0 <= j < front.len() && front[j] == kept[i];
            assert(m[j] == kept[i]);
        }
        assert forall|i: int| 0 <= i < out.len() implies m.contains(#[trigger] out[i]) by {
            if i < kept.len() {
                assert(out[i] == kept[i]);
            } else {
                assert(out[i] == m[m.len() - 1]);
            }
        }
        assert forall|i: int, j: int| 0 <= i < j < out.len() implies (#[trigger] out[i]).0 != (#[trigger] out[j]).0 by {
            assert(out[i] == kept[i]);
            if j < kept.len() {
                assert(out[j] == kept[j]);
            }
        }
    }
}

/// A map from strings to `V`, in insertion order.
#[derive(Debug)]
pub struct StringMap<V> {
    entries: Vec<(String, V)>,
}

impl<V: View> View for StringMap<V> {
    type V = Seq<(Seq<char>, V::V)>;

    closed spec fn view(&self) -> Seq<(Seq<char>, V::V)> {
        Seq::new(self.entries@.len(), |i: int| (self.entries@[i].0@, self.entries@[i].1@))
    }
}

impl<V: View> StringMap<V> {
    /// No key occurs twice.
    pub open spec fn wf(&self) -> bool {
        unique(self@)
    }

    pub fn new() -> (r: Self)
        ensures
            r.wf(),
            r@ == Seq::<(Seq<char>, V::V)>::empty(),
    {
        let r: Self = StringMap { entries: Vec::new() };
        assert(r@ =~= Seq::<(Seq<char>, V::V)>::empty());
        r
    }

    pub fn len(&self) -> (r: usize)
        ensures
            r == self@.len(),
    {
        self.entries.len()
    }

    pub fn is_empty(&self) -> (r: bool)
        ensures
            r == (self@.len() == 0),
    {
        self.entries.len() == 0
    }

    /// The position of the pair with key `k`.
    pub fn find(&self, k: &str) -> (r: Option<usize>)
        requires
            self.wf(),
        ensures
            match r {
                Some(i) => i < self@.len() && holds(self@, k@) && at(self@, k@) == i,
                None => !holds(self@, k@),
            },
    {
        let mut i: usize = 0;
        while i < self.entries.len()
            invariant
                self.wf(),
                i <= self.entries@.len(),
                forall|j: int| 0 <= j < i ==> (#[trigger] self@[j]).0 != k@,
            decreases self.entries@.len() - i,
        {
            assert(self@[i as int].0 == self.entries@[i as int].0@);
            if same_text(self.entries[i].0.as_str(), k) {
                return Some(i);
            }
            i += 1;
        }
        None
    }

    pub fn contains_key(&self, k: &str) -> (r: bool)
        requires
            self.wf(),
        ensures
            r == holds(self@, k@),
    {
        self.find(k).is_some()
    }

    pub fn get(&self, k: &str) -> (r: Option<&V>)
        requires
            self.wf(),
        ensures
            match r {
                Some(v) => lookup(self@, k@) == Some((*v)@),
                None => lookup(self@, k@) is None,
            },
    {
        match self.find(k) {
            Some(i) => Some(&self.entries[i].1),
            None => None,
        }
    }

    /// The key of the pair at position `i`.
    pub fn key_at(&self, i: usize) -> (r: &String)
        requires
            i < self@.len(),
        ensures
            r@ == self@[i as int].0,
    {
        &self.entries[i].0
    }

    /// The value of the pair at position `i`.
    pub fn value_at(&self, i: usize) -> (r: &V)
        requires
            i < self@.len(),
        ensures
            r@ == self@[i as int].1,
    {
        &self.entries[i].1
    }

    /// The value of the pair at position `i`, to be changed in place.
    pub fn value_at_mut(&mut self, i: usize) -> (r: &mut V)
        requires
            i < old(self)@.len(),
        ensures
            (*r)@ == old(self)@[i as int].1,
            final(self)@ == old(self)@.update(
                i as int,
                (old(self)@[i as int].0, (*final(r))@),
            ),
    {
        let e = &mut self.entries[i];
        &mut e.1
    }

    /// The value under `k`, to be changed in place.
    pub fn get_mut(&mut self, k: &str) -> (r: Option<&mut V>)
        requires
            old(self).wf(),
        ensures
            match r {
                Some(v) => {
                    &&& lookup(old(self)@, k@) == Some((*v)@)
                    &&& final(self)@ == put(old(self)@, k@, (*final(v))@)
                    &&& final(self).wf()
                },
                None => !holds(old(self)@, k@) && final(self)@ == old(self)@,
            },
    {
        match self.find(k) {
            Some(i) => Some(self.value_at_mut(i)),
            None => None,
        }
    }

    /// Puts `v` under `k`: an existing key keeps its place, a new one goes last.
    pub fn insert(&mut self, k: String, v: V)
        requires
            old(self).wf(),
        ensures
            final(self).wf(),
            final(self)@ == put(old(self)@, k@, v@),
    {
        match self.find(k.as_str()) {
            Some(i) => {
                self.entries.set(i, (k, v));
                assert(self@ =~= put(old(self)@, k@, v@));
            },
            None => {
                self.entries.push((k, v));
                assert(self@ =~= old(self)@.push((k@, v@)));
            },
        }
    }

    /// Takes the pair at position `i` out; those behind it move up.
    pub fn remove_at(&mut self, i: usize) -> (r: (String, V))
        requires
            i < old(self)@.len(),
        ensures
            final(self)@ == old(self)@.remove(i as int),
            r.0@ == old(self)@[i as int].0,
            r.1@ == old(self)@[i as int].1,
            old(self).wf() ==> final(self).wf(),
    {
        let r = self.entries.remove(i);
        assert(self@ =~= old(self)@.remove(i as int));
        r
    }

    /// Takes what is under `k` out.
    pub fn remove(&mut self, k: &str) -> (r: Option<V>)
        requires
            old(self).wf(),
        ensures
            final(self).wf(),
            final(self)@ == without(old(self)@, k@),
            match r {
                Some(v) => lookup(old(self)@, k@) == Some(v@),
                None => lookup(old(self)@, k@) is None,
            },
    {
        match self.find(k) {
            Some(i) => Some(self.remove_at(i).1),
            None => None,
        }
    }

    pub fn clear(&mut self)
        ensures
            final(self).wf(),
            final(self)@ == Seq::<(Seq<char>, V::V)>::empty(),
    {
        self.entries.clear();
        assert(self@ =~= Seq::<(Seq<char>, V::V)>::empty());
    }
}

impl StringMap<String> {
    /// A second map with the same pairs.
    pub fn duplicate(&self) -> (r: Self)
        ensures
            r@ == self@,
    {
        let mut v: Vec<(String, String)> = Vec::new();
        let mut i: usize = 0;
        while i < self.entries.len()
            invariant
                i <= self.entries@.len(),
                v@.len() == i,
                forall|j: int| 0 <= j < i ==> (#[trigger] v@[j]).0@ == self.entries@[j].0@ && v@[j].1@ == self.entries@[j].1@,
            decreases self.entries@.len() - i,
        {
            v.push((self.entries[i].0.clone(), self.entries[i].1.clone()));
            i += 1;
        }
        let r = StringMap { entries: v };
        assert(r@ =~= self@);
        r
    }
}

/// A set of strings.
#[derive(Debug)]
pub struct StringSet {
    items: Vec<String>,
}

impl View for StringSet {
    type V = Set<Seq<char>>;

    closed spec fn view(&self) -> Set<Seq<char>> {
        self.texts().to_set()
    }
}

impl StringSet {
    closed spec fn texts(&self) -> Seq<Seq<char>> {
        Seq::new(self.items@.len(), |i: int| self.items@[i]@)
    }

    /// No string is stored twice.
    pub closed spec fn wf(&self) -> bool {
        self.texts().no_duplicates()
    }

    pub fn new() -> (r: Self)
        ensures
            r.wf(),
            r@ == Set::<Seq<char>>::empty(),
    {
        let r = StringSet { items: Vec::new() };
        assert(r@ =~= Set::<Seq<char>>::empty());
        r
    }

    fn find(&self, s: &str) -> (r: Option<usize>)
        ensures
            match r {
                Some(i) => i < self.texts().len() && self.texts()[i as int] == s@,
                None => !self.texts().contains(s@),
            },
    {
        let mut i: usize = 0;
        while i < self.items.len()
            invariant
                i <= self.items@.len(),
                forall|j: int| 0 <= j < i ==> #[trigger] self.texts()[j] != s@,
            decreases self.items@.len() - i,
        {
            assert(self.texts()[i as int] == self.items@[i as int]@);
            if same_text(self.items[i].as_str(), s) {
                return Some(i);
            }
            i += 1;
        }
        None
    }

    pub fn contains(&self, s: &str) -> (r: bool)
        ensures
            r == self@.contains(s@),
    {
        self.find(s).is_some()
    }

    /// Adds `s`; tells whether it was new.
    pub fn insert(&mut self, s: String) -> (r: bool)
        requires
            old(self).wf(),
        ensures
            final(self).wf(),
            final(self)@ == old(self)@.insert(s@),
            r == !old(self)@.contains(s@),
    {
        if self.contains(s.as_str()) {
            assert(self@ =~= old(self)@.insert(s@));
            false
        } else {
            self.items.push(s);
            assert(self.texts() =~= old(self).texts().push(s@));
            assert forall|x: Seq<char>| self@.contains(x) == old(self)@.insert(s@).contains(x) by {
                if old(self).texts().contains(x) {
                    let i = choose|i: int| 0 <= i < old(self).texts().len() && old(self).texts()[i] == x;
                    assert(self.texts()[i] == x);
                }
                if x == s@ {
                    assert(self.texts()[old(self).texts().len() as int] == x);
                }
            }
            assert(self@ =~= old(self)@.insert(s@));
            true
        }
    }

    /// Takes `s` out; tells whether it was there.
    pub fn remove(&mut self, s: &str) -> (r: bool)
        requires
            old(self).wf(),
        ensures
            final(self).wf(),
            final(self)@ == old(self)@.remove(s@),
            r == old(self)@.contains(s@),
    {
        match self.find(s) {
            Some(i) => {
                let _ = self.items.remove(i);
                assert(self.texts() =~= old(self).texts().remove(i as int));
                assert forall|x: Seq<char>| self@.contains(x) == old(self)@.remove(s@).contains(x) by {
                    if old(self).texts().contains(x) && x != s@ {
                        let j = choose|j: int| 0 <= j < old(self).texts().len() && old(self).texts()[j] == x;
                        let k = if j < i { j } else { j - 1 };
                        assert(self.texts()[k] == x);
                    }
                    if self.texts().contains(x) {
                        let j = choose|j: int| 0 <= j < self.texts().len() && self.texts()[j] == x;
                        let k = if j < i { j } else { j + 1 };
                        assert(old(self).texts()[k] == x);
                        assert(k != i);
                    }
                }
                assert(self@ =~= old(self)@.remove(s@));
                true
            },
            None => {
                assert(self@ =~= old(self)@.remove(s@));
                false
            },
        }
    }

    pub fn len(&self) -> (r: usize)
        requires
            self.wf(),
        ensures
            self@.finite(),
            r == self@.len(),
    {
        proof {
            self.texts().unique_seq_to_set();
            vstd::seq_lib::seq_to_set_is_finite(self.texts());
        }
        self.items.len()
    }

    pub fn is_empty(&self) -> (r: bool)
        ensures
            r == (self@ == Set::<Seq<char>>::empty()),
    {
        proof {
            if self.items@.len() == 0 {
                assert(self@ =~= Set::<Seq<char>>::empty());
            } else {
                assert(self@.contains(self.texts()[0]));
            }
        }
        self.items.len() == 0
    }

    pub fn clear(&mut self)
        ensures
            final(self).wf(),
            final(self)@ == Set::<Seq<char>>::empty(),
    {
        self.items.clear();
        assert(self@ =~= Set::<Seq<char>>::empty());
    }
}

} // verus!
