//! Presigned URLs by part number.

use crate::arith::{first_items, lemma_first_items, lemma_items_ends};
use std::collections::HashMap;
use vstd::prelude::*;

verus! {

/// Adds `more` to `pool`; a URL for a part that has one replaces it.
pub fn extend_urls(pool: &mut HashMap<u32, String>, more: &HashMap<u32, String>)
    ensures
        final(pool)@ == old(pool)@.union_prefer_right(more@),
{
    broadcast use vstd::std_specs::hash::group_hash_axioms;

    let ghost before = pool@;
    let ghost new = more@;
    proof {
        lemma_items_ends();
        assert(before =~= before.union_prefer_right(new.restrict(Set::empty())));
    }
    for k in iter: more.keys()
        invariant
            new == more@,
            iter.seq().no_duplicates(),
            iter.seq().unref().to_set() == new.dom(),
            pool@ == before.union_prefer_right(new.restrict(first_items(iter.seq(), iter.index() as int))),
    {
        broadcast use vstd::std_specs::hash::group_hash_axioms;

        let ghost i = iter.index() as int;
        let ghost seen = first_items(iter.seq(), i);
        proof {
            assert(iter.seq().unref()[i] == *k);
            assert(new.dom().contains(*k));
            lemma_first_items(iter.seq(), i);
        }
        if let Some(url) = more.get(k) {
            pool.insert(*k, url.clone());
            assert(before.union_prefer_right(new.restrict(seen)).insert(*k, new[*k])
                =~= before.union_prefer_right(new.restrict(seen.insert(*k))));
        }
    }
    assert(new.restrict(new.dom()) =~= new);
}

} // verus!
