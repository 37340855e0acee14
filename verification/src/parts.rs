//! How a file is cut into parts.

use crate::arith::{first_items, lemma_first_items, lemma_items_ends, low32, low_bits};
use std::collections::HashSet;
use vstd::prelude::*;

verus! {

/// The number of parts of `part_size` bytes that hold `total_bytes`, the last of them
/// filled as far as needed.
pub open spec fn parts_needed(total_bytes: nat, part_size: nat) -> nat {
    (total_bytes + part_size - 1) as nat / part_size
}

/// The position of part `p`; parts count from 1.
pub open spec fn part_start(p: int, part_size: int) -> int {
    (p - 1) * part_size
}

/// The number of bytes in part `p`.
pub open spec fn part_len(p: int, part_size: int, total_bytes: int) -> int {
    let left = total_bytes - part_start(p, part_size);
    if left <= 0 {
        0
    } else if left < part_size {
        left
    } else {
        part_size
    }
}

/// The bytes in those of the parts 1 to `n` that are in `parts`.
pub open spec fn bytes_upto(parts: Set<u32>, part_size: int, total_bytes: int, n: nat) -> int
    decreases n,
{
    if n == 0 {
        0
    } else {
        bytes_upto(parts, part_size, total_bytes, (n - 1) as nat) + (if parts.contains(n as u32) {
            part_len(n as int, part_size, total_bytes)
        } else {
            0
        })
    }
}

/// The bytes in `parts`.
pub open spec fn bytes_in(parts: Set<u32>, part_size: int, total_bytes: int) -> int {
    bytes_upto(parts, part_size, total_bytes, u32::MAX as nat)
}

/// Part numbers count from 1, and the position of part `p` is representable.
pub open spec fn has_position(p: u32, part_size: u64) -> bool {
    p >= 1 && part_start(p as int, part_size as int) <= u64::MAX
}

/// Every one of the parts has a position.
pub open spec fn addressable(parts: Set<u32>, part_size: u64) -> bool {
    forall|p: u32| #[trigger] parts.contains(p) ==> has_position(p, part_size)
}

/// The numbers 1 to `n`.
pub open spec fn all_parts(n: nat) -> Set<u32> {
    Set::new(|p: u32| 1 <= p <= n)
}

/// Parts never hold more than the file, nor more than their number times their size.
pub proof fn lemma_bytes_bounded(parts: Set<u32>, part_size: int, total_bytes: int, n: nat)
    requires
        part_size >= 0,
        total_bytes >= 0,
    ensures
        0 <= bytes_upto(parts, part_size, total_bytes, n) <= total_bytes,
        bytes_upto(parts, part_size, total_bytes, n) <= n * part_size,
    decreases n,
{
    if n > 0 {
        lemma_bytes_bounded(parts, part_size, total_bytes, (n - 1) as nat);
        assert(n * part_size == (n - 1) * part_size + part_size) by (nonlinear_arith);
    } else {
        assert(n * part_size == 0) by (nonlinear_arith)
            requires
                n == 0,
        ;
    }
}

/// One more part adds its bytes.
pub proof fn lemma_bytes_insert(parts: Set<u32>, p: u32, part_size: int, total_bytes: int, n: nat)
    requires
        !parts.contains(p),
        n <= u32::MAX,
    ensures
        bytes_upto(parts.insert(p), part_size, total_bytes, n) == bytes_upto(
            parts,
            part_size,
            total_bytes,
            n,
        ) + (if 1 <= p <= n {
            part_len(p as int, part_size, total_bytes)
        } else {
            0
        }),
    decreases n,
{
    if n > 0 {
        lemma_bytes_insert(parts, p, part_size, total_bytes, (n - 1) as nat);
    }
}

/// All parts together hold the whole file: cutting it up loses nothing and repeats nothing.
pub proof fn lemma_parts_cover(part_size: u64, total_bytes: u64)
    requires
        part_size > 0,
        parts_needed(total_bytes as nat, part_size as nat) <= u32::MAX,
    ensures
        bytes_in(
            all_parts(parts_needed(total_bytes as nat, part_size as nat)),
            part_size as int,
            total_bytes as int,
        ) == total_bytes,
{
    let k = parts_needed(total_bytes as nat, part_size as nat);
    let all = all_parts(k);
    lemma_parts_needed(total_bytes as nat, part_size as nat);
    lemma_prefix_cover(all, k, part_size as int, total_bytes as int, k);
    lemma_no_more(all, k, part_size as int, total_bytes as int, u32::MAX as nat);
}

/// Parts and other parts hold together what each of the two holds.
proof fn lemma_bytes_split(a: Set<u32>, b: Set<u32>, part_size: int, total_bytes: int, n: nat)
    requires
        a.disjoint(b),
    ensures
        bytes_upto(a, part_size, total_bytes, n) + bytes_upto(b, part_size, total_bytes, n) == bytes_upto(
            a.union(b),
            part_size,
            total_bytes,
            n,
        ),
    decreases n,
{
    if n > 0 {
        lemma_bytes_split(a, b, part_size, total_bytes, (n - 1) as nat);
        assert(!(a.contains(n as u32) && b.contains(n as u32)));
    }
}

/// The parts that are done and those that are left hold together the whole file.
pub proof fn lemma_done_and_left(done: Set<u32>, part_size: u64, total_bytes: u64)
    requires
        part_size > 0,
        parts_needed(total_bytes as nat, part_size as nat) <= u32::MAX,
        done.subset_of(all_parts(parts_needed(total_bytes as nat, part_size as nat))),
    ensures
        ({
            let all = all_parts(parts_needed(total_bytes as nat, part_size as nat));
            bytes_in(done, part_size as int, total_bytes as int) + bytes_in(
                all.difference(done),
                part_size as int,
                total_bytes as int,
            ) == total_bytes
        }),
{
    let all = all_parts(parts_needed(total_bytes as nat, part_size as nat));
    let left = all.difference(done);
    lemma_bytes_split(done, left, part_size as int, total_bytes as int, u32::MAX as nat);
    assert(done.union(left) =~= all);
    lemma_parts_cover(part_size, total_bytes);
}

/// The parts suffice, and one fewer would not.
pub proof fn lemma_parts_needed(total_bytes: nat, part_size: nat)
    requires
        part_size > 0,
    ensures
        parts_needed(total_bytes, part_size) * part_size >= total_bytes,
        total_bytes > 0 ==> (parts_needed(total_bytes, part_size) - 1) * part_size < total_bytes,
        total_bytes == 0 ==> parts_needed(total_bytes, part_size) == 0,
{
    let k = parts_needed(total_bytes, part_size);
    let top = (total_bytes + part_size - 1) as nat;
    assert(top == part_size * (top / part_size) + top % part_size && 0 <= top % part_size < part_size)
        by (nonlinear_arith)
        requires
            part_size > 0,
    ;
    assert(part_size * k == k * part_size) by (nonlinear_arith);
    assert((k - 1) * part_size == k * part_size - part_size) by (nonlinear_arith);
    if total_bytes == 0 {
        assert(k == 0) by (nonlinear_arith)
            requires
                k * part_size <= part_size - 1,
                part_size > 0,
                k >= 0,
        ;
    }
}

/// The first `n` parts hold the first `n * part_size` bytes, as far as there are any.
proof fn lemma_prefix_cover(all: Set<u32>, k: nat, part_size: int, total_bytes: int, n: nat)
    requires
        all == all_parts(k),
        n <= k <= u32::MAX,
        part_size > 0,
        total_bytes >= 0,
    ensures
        bytes_upto(all, part_size, total_bytes, n) == (if n * part_size < total_bytes {
            n * part_size
        } else {
            total_bytes
        }),
    decreases n,
{
    if n > 0 {
        lemma_prefix_cover(all, k, part_size, total_bytes, (n - 1) as nat);
        assert(all.contains(n as u32));
        assert(n * part_size == (n - 1) * part_size + part_size) by (nonlinear_arith);
    } else {
        assert(n * part_size == 0) by (nonlinear_arith)
            requires
                n == 0,
        ;
    }
}

/// Numbers past the last part add nothing.
proof fn lemma_no_more(all: Set<u32>, k: nat, part_size: int, total_bytes: int, n: nat)
    requires
        all == all_parts(k),
        k <= n <= u32::MAX,
    ensures
        bytes_upto(all, part_size, total_bytes, n) == bytes_upto(all, part_size, total_bytes, k),
    decreases n,
{
    if n > k {
        lemma_no_more(all, k, part_size, total_bytes, (n - 1) as nat);
    }
}

/// The parts of a file stand one behind the other, from its start on: each has the part
/// size, but for what lies past the end of the file.
pub proof fn law_parts_tile(p: u32, part_size: u64, total_bytes: u64)
    requires
        p >= 1,
        part_size > 0,
    ensures
        ({
            let start = part_start(p as int, part_size as int);
            let len = part_len(p as int, part_size as int, total_bytes as int);
            &&& part_start(1, part_size as int) == 0
            &&& part_start(p + 1, part_size as int) == start + part_size
            &&& 0 <= len <= part_size
            &&& start >= total_bytes ==> len == 0
            &&& start < total_bytes <= start + part_size ==> start + len == total_bytes
            &&& start + part_size < total_bytes ==> len == part_size
            &&& has_position(p, part_size) <==> start <= u64::MAX
        }),
        !has_position(0, part_size),
{
    assert((p + 1 - 1) * part_size == (p - 1) * part_size + part_size) by (nonlinear_arith);
    assert((1 - 1) * part_size == 0) by (nonlinear_arith);
}

/// No parts hold no bytes, and one part more adds its own.
pub proof fn law_bytes_add_up(parts: Set<u32>, p: u32, part_size: int, total_bytes: int)
    requires
        !parts.contains(p),
    ensures
        bytes_in(Set::empty(), part_size, total_bytes) == 0,
        bytes_in(parts.insert(p), part_size, total_bytes) == bytes_in(parts, part_size, total_bytes) + (if p >= 1 {
            part_len(p as int, part_size, total_bytes)
        } else {
            0
        }),
{
    lemma_bytes_none(part_size, total_bytes, u32::MAX as nat);
    lemma_bytes_insert(parts, p, part_size, total_bytes, u32::MAX as nat);
}

/// All parts are those from 1 on; parts are addressable where each of them has a position.
pub proof fn law_all_parts(n: nat, p: u32, parts: Set<u32>, part_size: u64)
    ensures
        all_parts(n).contains(p) <==> 1 <= p <= n,
        addressable(parts, part_size) <==> forall|q: u32| #[trigger] parts.contains(q) ==> has_position(q, part_size),
{
}

/// The number of parts of a file, in 32 bits.
pub fn total_parts(total_bytes: u64, part_size: u64) -> (r: u32)
    requires
        part_size > 0,
    ensures
        r == low32(parts_needed(total_bytes as nat, part_size as nat)),
{
    let q: u64 = total_bytes / part_size;
    let rest: u64 = total_bytes % part_size;
    let n: u64 = if rest > 0 {
        assert(q < u64::MAX) by (nonlinear_arith)
            requires
                q == total_bytes / part_size,
                rest == total_bytes % part_size,
                rest > 0,
                part_size > 0,
                total_bytes <= u64::MAX,
        ;
        q + 1
    } else {
        q
    };
    assert(n == (total_bytes + part_size - 1) / part_size as int) by (nonlinear_arith)
        requires
            part_size > 0,
            q == total_bytes / part_size,
            rest == total_bytes % part_size,
            n == (if rest > 0 {
                q + 1
            } else {
                q as int
            }),
    ;
    low_bits(n)
}

/// The position of a part, if it has one.
pub fn part_position(part_number: u32, part_size: u64) -> (r: Option<u64>)
    ensures
        match r {
            Some(start) => has_position(part_number, part_size) && start == part_start(
                part_number as int,
                part_size as int,
            ),
            None => !has_position(part_number, part_size),
        },
{
    if part_number == 0 {
        return None;
    }
    (part_number as u64 - 1).checked_mul(part_size)
}

/// The number of bytes in a part.
pub fn part_size_for(part_number: u32, part_size: u64, total_bytes: u64) -> (r: u64)
    requires
        has_position(part_number, part_size),
    ensures
        r == part_len(part_number as int, part_size as int, total_bytes as int),
{
    let n: u64 = part_number as u64 - 1;
    assert(0 <= n * part_size) by (nonlinear_arith);
    let start: u64 = n * part_size;
    let left: u64 = total_bytes.saturating_sub(start);
    if left < part_size {
        left
    } else {
        part_size
    }
}

/// The number of bytes in the parts that are done.
pub fn completed_bytes(done_parts: &HashSet<u32>, part_size: u64, total_bytes: u64) -> (r: u64)
    requires
        addressable(done_parts@, part_size),
    ensures
        r == bytes_in(done_parts@, part_size as int, total_bytes as int),
{
    broadcast use vstd::std_specs::hash::group_hash_axioms;

    let ghost size = part_size as int;
    let ghost total = total_bytes as int;
    let mut sum: u64 = 0;
    proof {
        lemma_bytes_none(size, total, u32::MAX as nat);
        lemma_items_ends();
    }
    for p in iter: done_parts.iter()
        invariant
            addressable(done_parts@, part_size),
            size == part_size,
            total == total_bytes,
            iter.seq().no_duplicates(),
            iter.seq().unref().to_set() == done_parts@,
            sum == bytes_in(first_items(iter.seq(), iter.index() as int), size, total),
    {
        proof {
            let i = iter.index() as int;
            let seen = first_items(iter.seq(), i);
            assert(iter.seq().unref()[i] == *p);
            assert(done_parts@.contains(*p));
            lemma_first_items(iter.seq(), i);
            lemma_bytes_insert(seen, *p, size, total, u32::MAX as nat);
            lemma_bytes_bounded(seen.insert(*p), size, total, u32::MAX as nat);
        }
        sum = sum + part_size_for(*p, part_size, total_bytes);
    }
    sum
}

/// No parts, no bytes.
proof fn lemma_bytes_none(part_size: int, total_bytes: int, n: nat)
    ensures
        bytes_upto(Set::empty(), part_size, total_bytes, n) == 0,
    decreases n,
{
    if n > 0 {
        lemma_bytes_none(part_size, total_bytes, (n - 1) as nat);
    }
}

} // verus!
