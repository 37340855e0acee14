//! Which parts of a run were handed out, and which of them are stored.

use crate::chunk::{numbers, stored_parts, ChunkUploadResult};
use crate::text::{decimal, decimal_text};
use vstd::prelude::*;
use vstd::string::*;

verus! {

/// The parts of a run. Each is handed out once, in order, by its index; what was handed out
/// is noted at most once as stored.
#[derive(Debug)]
pub struct Ledger {
    parts: Vec<u32>,
    next: usize,
    /// The indices of the stored parts, in the order in which they were noted.
    noted: Vec<usize>,
    completed: Vec<ChunkUploadResult>,
}

/// The content of a `Ledger`.
#[verifier::ext_equal]
pub struct LedgerView {
    pub parts: Seq<u32>,
    /// The index of the part that is handed out next.
    pub next: int,
    /// The indices and ETags of the stored parts, in the order in which they were noted.
    pub stored: Seq<(int, Seq<char>)>,
}

impl LedgerView {
    /// A run over `parts` that has not begun.
    pub open spec fn fresh(parts: Seq<u32>) -> LedgerView {
        LedgerView { parts, next: 0, stored: Seq::empty() }
    }

    /// The part at index `i` is noted as stored.
    pub open spec fn has(self, i: int) -> bool {
        exists|j: int| 0 <= j < self.stored.len() && (#[trigger] self.stored[j]).0 == i
    }

    /// The part at index `i` was handed out and is not noted as stored.
    pub open spec fn is_out(self, i: int) -> bool {
        0 <= i < self.next && !self.has(i)
    }

    /// Only what was handed out is noted, and nothing twice.
    pub open spec fn sound(self) -> bool {
        &&& 0 <= self.next <= self.parts.len()
        &&& forall|j: int| 0 <= j < self.stored.len() ==> 0 <= (#[trigger] self.stored[j]).0 < self.next
        &&& forall|j: int, k: int|
            0 <= j < k < self.stored.len() ==> (#[trigger] self.stored[j]).0 != (#[trigger] self.stored[k]).0
    }

    /// With the next part handed out.
    pub open spec fn advanced(self) -> LedgerView {
        LedgerView { next: self.next + 1, ..self }
    }

    /// With the part at index `i` noted as stored under `etag`.
    pub open spec fn with_stored(self, i: int, etag: Seq<char>) -> LedgerView {
        LedgerView { stored: self.stored.push((i, etag)), ..self }
    }

    /// The numbers and ETags of the stored parts.
    pub open spec fn results(self) -> Seq<(u32, Seq<char>)> {
        self.stored.map_values(|p: (int, Seq<char>)| (self.parts[p.0], p.1))
    }
}

/// The message when parts are missing at the end.
pub open spec fn incomplete(stored: nat, wanted: nat) -> Seq<char> {
    "Only "@ + decimal(stored) + "/"@ + decimal(wanted) + " parts uploaded successfully"@
}

pub(crate) fn incomplete_error(stored: usize, wanted: usize) -> (r: String)
    ensures
        r@ == incomplete(stored as nat, wanted as nat),
{
    let mut e = "Only ".to_string();
    e.append(decimal_text(stored as u64).as_str());
    e.append("/");
    e.append(decimal_text(wanted as u64).as_str());
    e.append(" parts uploaded successfully");
    e
}

/// The smaller of the two.
pub open spec fn least(a: int, b: int) -> int {
    if a < b {
        a
    } else {
        b
    }
}

/// The items at different positions of `s`, in any order, are among its items, each as
/// often as there.
proof fn lemma_picked(s: Seq<u32>, at: Seq<int>)
    requires
        forall|j: int| 0 <= j < at.len() ==> 0 <= #[trigger] at[j] < s.len(),
        at.no_duplicates(),
    ensures
        at.map_values(|i: int| s[i]).to_multiset().subset_of(s.to_multiset()),
    decreases at.len(),
{
    broadcast use {vstd::multiset::group_multiset_axioms, vstd::seq_lib::group_to_multiset_ensures};

    let picked = at.map_values(|i: int| s[i]);
    if at.len() == 0 {
        assert(picked =~= Seq::<u32>::empty());
    } else {
        let k = at.last();
        let rest = s.remove(k);
        let front = at.drop_last();
        let moved = front.map_values(|i: int| if i < k { i } else { i - 1 });
        assert forall|j: int| 0 <= j < moved.len() implies 0 <= #[trigger] moved[j] < rest.len() && rest[moved[j]] == s[at[j]] by {
            assert(front[j] == at[j]);
            assert(at[j] != at[at.len() - 1]);
        }
        assert forall|i: int, j: int| 0 <= i < moved.len() && 0 <= j < moved.len() && i != j implies moved[i] != moved[j] by {
            assert(front[i] == at[i] && front[j] == at[j]);
            assert(at[i] != at[j]);
            assert(at[i] != at[at.len() - 1] && at[j] != at[at.len() - 1]);
        }
        lemma_picked(rest, moved);
        assert(moved.map_values(|i: int| rest[i]) =~= picked.drop_last());
        assert(picked =~= picked.drop_last().push(s[k]));
        assert(picked.to_multiset() =~= picked.drop_last().to_multiset().insert(s[k]));
        vstd::seq_lib::to_multiset_remove(s, k);
        assert(rest.to_multiset() =~= s.to_multiset().remove(s[k]));
        assert(s.contains(s[k]));
        assert(s.to_multiset().count(s[k]) > 0);
        assert forall|v: u32| picked.to_multiset().count(v) <= s.to_multiset().count(v) by {
            assert(picked.drop_last().to_multiset().count(v) <= rest.to_multiset().count(v));
        }
    }
}

/// What is stored is always among the parts of the run, none more often than there. Once as
/// many are stored as there are parts, every part is.
pub proof fn lemma_stored_parts(v: LedgerView)
    requires
        v.sound(),
    ensures
        numbers(v.results()).to_multiset().subset_of(v.parts.to_multiset()),
        v.stored.len() == v.parts.len() ==> numbers(v.results()).to_multiset() == v.parts.to_multiset(),
{
    broadcast use {vstd::multiset::group_multiset_axioms, vstd::seq_lib::group_to_multiset_ensures};

    let at = v.stored.map_values(|p: (int, Seq<char>)| p.0);
    assert forall|j: int| 0 <= j < at.len() implies 0 <= #[trigger] at[j] < v.parts.len() by {
        assert(v.stored[j].0 == at[j]);
    }
    assert forall|i: int, j: int| 0 <= i < at.len() && 0 <= j < at.len() && i != j implies at[i] != at[j] by {
        assert(v.stored[i].0 == at[i] && v.stored[j].0 == at[j]);
    }
    lemma_picked(v.parts, at);
    let found = numbers(v.results());
    assert(at.map_values(|i: int| v.parts[i]) =~= found);
    if v.stored.len() == v.parts.len() {
        lemma_same_size(found, v.parts);
    }
}

/// Two rows of the same length, one of them with nothing that the other does not have, hold
/// the same.
proof fn lemma_same_size(found: Seq<u32>, parts: Seq<u32>)
    requires
        found.to_multiset().subset_of(parts.to_multiset()),
        found.len() == parts.len(),
    ensures
        found.to_multiset() == parts.to_multiset(),
{
    broadcast use {vstd::multiset::group_multiset_axioms, vstd::seq_lib::group_to_multiset_ensures};

    let a = found.to_multiset();
    let b = parts.to_multiset();
    let rest = b.sub(a);
    assert(rest.len() == 0);
    assert forall|v: u32| a.count(v) == b.count(v) by {
        if a.count(v) < b.count(v) {
            assert(rest.count(v) > 0);
            assert(rest.count(v) <= rest.len());
        }
    }
    assert(a =~= b);
}

impl View for Ledger {
    type V = LedgerView;

    closed spec fn view(&self) -> LedgerView {
        LedgerView {
            parts: self.parts@,
            next: self.next as int,
            stored: Seq::new(
                self.noted@.len(),
                |j: int| (self.noted@[j] as int, self.completed@[j].etag@),
            ),
        }
    }
}

impl Ledger {
    /// Only what was handed out is noted, and nothing twice.
    pub closed spec fn wf(&self) -> bool {
        &&& self@.sound()
        &&& self.completed@.len() == self.noted@.len()
        &&& forall|j: int|
            0 <= j < self.completed@.len() ==> (#[trigger] self.completed@[j]).part_number
                == self.parts@[self.noted@[j] as int]
    }

    /// What every ledger keeps.
    pub proof fn lemma_sound(&self)
        requires
            self.wf(),
        ensures
            self@.sound(),
    {
    }

    pub fn new(parts: Vec<u32>) -> (r: Self)
        ensures
            r.wf(),
            r@ == LedgerView::fresh(parts@),
    {
        let r = Ledger { parts, next: 0, noted: Vec::new(), completed: Vec::new() };
        assert(r@ =~= LedgerView::fresh(parts@));
        r
    }

    /// The number of parts.
    pub fn len(&self) -> (r: usize)
        ensures
            r == self@.parts.len(),
    {
        self.parts.len()
    }

    /// The index of the part that is handed out next.
    pub fn next(&self) -> (r: usize)
        ensures
            r == self@.next,
    {
        self.next
    }

    /// The number of the part at an index.
    pub fn part_at(&self, idx: usize) -> (r: u32)
        requires
            idx < self@.parts.len(),
        ensures
            r == self@.parts[idx as int],
    {
        self.parts[idx]
    }

    /// The numbers of the parts from one index up to, but without, another.
    pub fn slice(&self, from: usize, to: usize) -> (r: Vec<u32>)
        requires
            from <= to <= self@.parts.len(),
        ensures
            r@ == self@.parts.subrange(from as int, to as int),
    {
        let mut r: Vec<u32> = Vec::new();
        let mut i: usize = from;
        while i < to
            invariant
                from <= i <= to <= self.parts@.len(),
                r@ == self.parts@.subrange(from as int, i as int),
            decreases to - i,
        {
            r.push(self.parts[i]);
            assert(r@ =~= self.parts@.subrange(from as int, i + 1));
            i += 1;
        }
        r
    }

    /// Hands the next part out, by its index; none is left once all were handed out.
    pub fn hand_out(&mut self) -> (r: Option<usize>)
        requires
            old(self).wf(),
        ensures
            final(self).wf(),
            if old(self)@.next < old(self)@.parts.len() {
                &&& r matches Some(i) && i == old(self)@.next
                &&& final(self)@ == old(self)@.advanced()
                &&& final(self)@.is_out(old(self)@.next)
            } else {
                r is None && final(self)@ == old(self)@
            },
    {
        if self.next >= self.parts.len() {
            return None;
        }
        let i: usize = self.next;
        self.next = i + 1;
        assert(self@ =~= old(self)@.advanced());
        Some(i)
    }

    /// Whether the part at an index was handed out and is not noted as stored.
    pub fn is_out(&self, idx: usize) -> (r: bool)
        requires
            self.wf(),
        ensures
            r == self@.is_out(idx as int),
    {
        if idx >= self.next {
            return false;
        }
        let mut j: usize = 0;
        while j < self.noted.len()
            invariant
                j <= self.noted@.len(),
                forall|k: int| 0 <= k < j ==> (#[trigger] self@.stored[k]).0 != idx,
            decreases self.noted@.len() - j,
        {
            assert(self@.stored[j as int].0 == self.noted@[j as int]);
            if self.noted[j] == idx {
                return false;
            }
            j += 1;
        }
        true
    }

    /// Notes that the part at an index is stored.
    pub fn note(&mut self, idx: usize, etag: String)
        requires
            old(self).wf(),
            old(self)@.is_out(idx as int),
        ensures
            final(self).wf(),
            final(self)@ == old(self)@.with_stored(idx as int, etag@),
    {
        let part_number: u32 = self.parts[idx];
        self.noted.push(idx);
        self.completed.push(ChunkUploadResult { part_number, etag });
        assert(self@ =~= old(self)@.with_stored(idx as int, etag@));
        assert forall|j: int, k: int| 0 <= j < k < self@.stored.len() implies (#[trigger] self@.stored[j]).0 != (#[trigger] self@.stored[k]).0 by {
            assert(self@.stored[j] == old(self)@.stored[j]);
            if k < old(self)@.stored.len() {
                assert(self@.stored[k] == old(self)@.stored[k]);
            }
        }
        assert forall|j: int| 0 <= j < self@.stored.len() implies 0 <= (#[trigger] self@.stored[j]).0 < self@.next by {
            if j < old(self)@.stored.len() {
                assert(self@.stored[j] == old(self)@.stored[j]);
            }
        }
    }

    /// The stored parts. Where some are missing, an error tells how many there are.
    pub fn finish(self) -> (r: Result<Vec<ChunkUploadResult>, String>)
        requires
            self.wf(),
        ensures
            if self@.stored.len() != self@.parts.len() {
                r matches Err(e) && e@ == incomplete(self@.stored.len(), self@.parts.len())
            } else {
                &&& r matches Ok(v)
                &&& stored_parts(v@) == self@.results()
                &&& numbers(stored_parts(v@)).to_multiset() == self@.parts.to_multiset()
            },
    {
        if self.completed.len() != self.parts.len() {
            return Err(incomplete_error(self.completed.len(), self.parts.len()));
        }
        proof {
            lemma_stored_parts(self@);
            assert(stored_parts(self.completed@) =~= self@.results()) by {
                assert forall|j: int| 0 <= j < self.completed@.len() implies stored_parts(self.completed@)[j] == self@.results()[j] by {
                    assert(self.completed@[j].part_number == self.parts@[self.noted@[j] as int]);
                    assert(self@.stored[j] == (self.noted@[j] as int, self.completed@[j].etag@));
                }
            }
        }
        Ok(self.completed)
    }
}

} // verus!
