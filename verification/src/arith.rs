//! Narrowing of numbers, and walks over sets of them.

use vstd::prelude::*;

verus! {

/// The lowest 32 bits of a number.
pub open spec fn low32(n: nat) -> u32 {
    (n % 0x1_0000_0000) as u32
}

/// The lowest 32 bits of a number.
pub fn low_bits(n: u64) -> (r: u32)
    ensures
        r == low32(n as nat),
{
    assert(n as u32 == n % 0x1_0000_0000) by (bit_vector);
    #[verifier::truncate]
    (n as u32)
}

/// The first `i` items of `s`.
pub open spec fn first_items(s: Seq<&u32>, i: int) -> Set<u32> {
    Set::new(|p: u32| exists|j: int| 0 <= j < i && j < s.len() && *(#[trigger] s[j]) == p)
}

/// At first nothing, in the end every item.
pub proof fn lemma_items_ends()
    ensures
        forall|s: Seq<&u32>| #[trigger] first_items(s, 0) == Set::<u32>::empty(),
        forall|s: Seq<&u32>, i: int|
            i == s.len() ==> #[trigger] first_items(s, i) == s.unref().to_set(),
{
    assert forall|s: Seq<&u32>| #[trigger] first_items(s, 0) == Set::<u32>::empty() by {
        assert(first_items(s, 0) =~= Set::<u32>::empty());
    }
    assert forall|s: Seq<&u32>, i: int| i == s.len() implies #[trigger] first_items(s, i) == s.unref().to_set() by {
        let all = s.unref().to_set();
        assert forall|p: u32| first_items(s, i).contains(p) == all.contains(p) by {
            if first_items(s, i).contains(p) {
                let j = choose|j: int| 0 <= j < i && j < s.len() && *(#[trigger] s[j]) == p;
                assert(s.unref()[j] == p);
            }
            if all.contains(p) {
                let j = choose|j: int| 0 <= j < s.unref().len() && s.unref()[j] == p;
                assert(*s[j] == p);
            }
        }
        assert(first_items(s, i) =~= all);
    }
}

/// One item more.
pub proof fn lemma_first_items(s: Seq<&u32>, i: int)
    requires
        s.no_duplicates(),
        0 <= i < s.len(),
    ensures
        !first_items(s, i).contains(*s[i]),
        first_items(s, i + 1) == first_items(s, i).insert(*s[i]),
{
    let more = first_items(s, i + 1);
    let one = first_items(s, i).insert(*s[i]);
    assert forall|p: u32| more.contains(p) == one.contains(p) by {
        if p == *s[i] {
            assert(more.contains(p));
        }
    }
    assert(more =~= one);
}

} // verus!
