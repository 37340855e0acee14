//! Live progress of the files that are being uploaded, bytes in flight included.

use crate::arith::{first_items, lemma_first_items, lemma_items_ends};
use crate::report::{
    is_meant, lemma_filter_none, lemma_filter_step, lemma_sum_step, meant, reports, sum_where,
    AggregateProgress, FileProgress, FileProgressView,
};
use crate::session::str_opt;
use crate::state::{percentage_of, Percentage, UploadState};
use crate::string_map::{holds, lemma_put, lemma_without, lookup, put, unique, without, StringMap};
use crate::transfers::texts;
use std::collections::HashMap;
use vstd::prelude::*;

verus! {

/// Live progress of one file.
#[derive(Debug)]
pub struct UploadProgress {
    pub file_key: String,
    pub file_name: String,
    pub file_hash: String,
    pub transfer_id: String,
    pub total_bytes: u64,
    pub total_parts: u32,
    /// Bytes in completed parts only.
    pub completed_bytes: u64,
    /// Part number to bytes sent so far; a completed part is taken out.
    pub in_flight_progress: HashMap<u32, u64>,
    pub completed_parts: u32,
    pub status: UploadState,
}

/// The content of an `UploadProgress`.
#[verifier::ext_equal]
pub struct UploadProgressView {
    pub file_key: Seq<char>,
    pub file_name: Seq<char>,
    pub file_hash: Seq<char>,
    pub transfer_id: Seq<char>,
    pub total_bytes: u64,
    pub total_parts: u32,
    pub completed_bytes: u64,
    pub in_flight: Map<u32, u64>,
    pub completed_parts: u32,
    pub status: UploadState,
}

impl View for UploadProgress {
    type V = UploadProgressView;

    open spec fn view(&self) -> UploadProgressView {
        UploadProgressView {
            file_key: self.file_key@,
            file_name: self.file_name@,
            file_hash: self.file_hash@,
            transfer_id: self.transfer_id@,
            total_bytes: self.total_bytes,
            total_parts: self.total_parts,
            completed_bytes: self.completed_bytes,
            in_flight: self.in_flight_progress@,
            completed_parts: self.completed_parts,
            status: self.status,
        }
    }
}

/// The sum of `m` over those of `keys` that are below `n`.
pub open spec fn sum_below(m: Map<u32, u64>, keys: Set<u32>, n: nat) -> nat
    decreases n,
{
    if n == 0 {
        0
    } else {
        sum_below(m, keys, (n - 1) as nat) + (if keys.contains((n - 1) as u32) {
            m[(n - 1) as u32] as nat
        } else {
            0
        })
    }
}

/// The sum of all values of `m`.
pub open spec fn flying(m: Map<u32, u64>) -> nat {
    sum_below(m, m.dom(), 0x1_0000_0000)
}

impl UploadProgressView {
    /// The bytes that have been sent, in completed parts and in flight.
    pub open spec fn sent(self) -> nat {
        self.completed_bytes as nat + flying(self.in_flight)
    }

    /// The sum of the bytes sent is representable.
    pub open spec fn fits(self) -> bool {
        self.sent() <= u64::MAX
    }

    pub open spec fn percentage(self) -> Percentage {
        if self.status == UploadState::Completed {
            Percentage::Full
        } else {
            percentage_of(self.sent() as u64, self.total_bytes)
        }
    }

    /// The report on the file.
    pub open spec fn report(self) -> FileProgressView {
        FileProgressView {
            file_key: Some(self.file_key),
            file_name: self.file_name,
            file_hash: self.file_hash,
            transfer_id: self.transfer_id,
            total_bytes: self.total_bytes,
            uploaded_bytes: self.sent() as u64,
            completed_parts: self.completed_parts,
            total_parts: self.total_parts,
            percentage: self.percentage(),
            state: self.status,
        }
    }

    /// With `bytes` of part `p` sent so far.
    pub open spec fn with_flight(self, p: u32, bytes: u64) -> UploadProgressView {
        UploadProgressView { in_flight: self.in_flight.insert(p, bytes), ..self }
    }

    /// With part `p`, of `size` bytes, completed.
    pub open spec fn with_part(self, p: u32, size: u64) -> UploadProgressView {
        UploadProgressView {
            in_flight: self.in_flight.remove(p),
            completed_bytes: (self.completed_bytes + size) as u64,
            completed_parts: (self.completed_parts + 1) as u32,
            ..self
        }
    }
}

/// More keys, a greater sum.
proof fn lemma_sum_below(m: Map<u32, u64>, some: Set<u32>, all: Set<u32>, n: nat)
    requires
        some.subset_of(all),
    ensures
        sum_below(m, some, n) <= sum_below(m, all, n),
    decreases n,
{
    if n > 0 {
        lemma_sum_below(m, some, all, (n - 1) as nat);
    }
}

/// One more key adds its value.
proof fn lemma_sum_below_insert(m: Map<u32, u64>, keys: Set<u32>, k: u32, n: nat)
    requires
        !keys.contains(k),
        n <= 0x1_0000_0000,
    ensures
        sum_below(m, keys.insert(k), n) == sum_below(m, keys, n) + (if k < n {
            m[k] as nat
        } else {
            0
        }),
    decreases n,
{
    if n > 0 {
        lemma_sum_below_insert(m, keys, k, (n - 1) as nat);
    }
}

/// The sum depends on the values under the keys only.
proof fn lemma_sum_below_agree(a: Map<u32, u64>, b: Map<u32, u64>, keys: Set<u32>, n: nat)
    requires
        forall|k: u32| #[trigger] keys.contains(k) ==> a[k] == b[k],
    ensures
        sum_below(a, keys, n) == sum_below(b, keys, n),
    decreases n,
{
    if n > 0 {
        lemma_sum_below_agree(a, b, keys, (n - 1) as nat);
        assert(keys.contains((n - 1) as u32) ==> a[(n - 1) as u32] == b[(n - 1) as u32]);
    }
}

/// Taking a key out takes its value off the sum.
pub proof fn lemma_flying_remove(m: Map<u32, u64>, k: u32)
    requires
        m.contains_key(k),
    ensures
        flying(m.remove(k)) + m[k] == flying(m),
{
    let rest = m.remove(k);
    lemma_sum_below_agree(rest, m, rest.dom(), 0x1_0000_0000);
    lemma_sum_below_insert(m, rest.dom(), k, 0x1_0000_0000);
    assert(rest.dom().insert(k) =~= m.dom());
}

/// Putting a value under a key puts it into the sum, in place of the one that was there.
proof fn lemma_flying_insert(m: Map<u32, u64>, k: u32, v: u64)
    ensures
        flying(m.insert(k, v)) == flying(m.remove(k)) + v,
        m.contains_key(k) ==> flying(m.remove(k)) + m[k] == flying(m),
        !m.contains_key(k) ==> flying(m.remove(k)) == flying(m),
{
    let after = m.insert(k, v);
    lemma_flying_remove(after, k);
    assert(after.remove(k) =~= m.remove(k));
    if m.contains_key(k) {
        lemma_flying_remove(m, k);
    } else {
        assert(m.remove(k) =~= m);
    }
}

/// Without keys, the sum is nothing.
proof fn lemma_sum_below_none(m: Map<u32, u64>, n: nat)
    ensures
        sum_below(m, Set::empty(), n) == 0,
    decreases n,
{
    if n > 0 {
        lemma_sum_below_none(m, (n - 1) as nat);
    }
}

/// With nothing in flight the sum is nothing, and one part more adds its bytes.
pub proof fn law_flying_sums(m: Map<u32, u64>, k: u32, v: u64)
    ensures
        flying(Map::<u32, u64>::empty()) == 0,
        !m.contains_key(k) ==> flying(m.insert(k, v)) == flying(m) + v,
        m.contains_key(k) ==> flying(m.insert(k, v)) + m[k] == flying(m) + v,
        m.contains_key(k) ==> flying(m.remove(k)) + m[k] == flying(m),
{
    lemma_sum_below_none(Map::empty(), 0x1_0000_0000);
    assert(Map::<u32, u64>::empty().dom() =~= Set::<u32>::empty());
    lemma_flying_insert(m, k, v);
}

impl UploadProgress {
    /// A file that has begun to run.
    pub fn new(file_key: String, transfer_id: String, total_bytes: u64, total_parts: u32) -> (r: Self)
        ensures
            r@ == (UploadProgressView {
                file_key: file_key@,
                file_name: Seq::empty(),
                file_hash: Seq::empty(),
                transfer_id: transfer_id@,
                total_bytes,
                total_parts,
                completed_bytes: 0,
                in_flight: Map::empty(),
                completed_parts: 0,
                status: UploadState::Running,
            }),
    {
        UploadProgress {
            file_key,
            file_name: String::new(),
            file_hash: String::new(),
            transfer_id,
            total_bytes,
            total_parts,
            completed_bytes: 0,
            in_flight_progress: HashMap::new(),
            completed_parts: 0,
            status: UploadState::Running,
        }
    }

    /// The bytes in flight.
    fn bytes_in_flight(&self) -> (r: u64)
        requires
            flying(self@.in_flight) <= u64::MAX,
        ensures
            r == flying(self@.in_flight),
    {
        broadcast use vstd::std_specs::hash::group_hash_axioms;

        let ghost m = self.in_flight_progress@;
        let mut sum: u64 = 0;
        proof {
            lemma_sum_below_none(m, 0x1_0000_0000);
            lemma_items_ends();
        }
        for k in iter: self.in_flight_progress.keys()
            invariant
                m == self.in_flight_progress@,
                flying(m) <= u64::MAX,
                iter.seq().no_duplicates(),
                iter.seq().unref().to_set() == m.dom(),
                sum == sum_below(m, first_items(iter.seq(), iter.index() as int), 0x1_0000_0000),
        {
            broadcast use vstd::std_specs::hash::group_hash_axioms;

            proof {
                let i = iter.index() as int;
                let seen = first_items(iter.seq(), i);
                assert(iter.seq().unref()[i] == *k);
                assert(m.dom().contains(*k));
                lemma_first_items(iter.seq(), i);
                lemma_sum_below_insert(m, seen, *k, 0x1_0000_0000);
                assert forall|p: u32| seen.insert(*k).contains(p) implies m.dom().contains(p) by {
                    if seen.contains(p) {
                        let j = choose|j: int| 0 <= j < i && j < iter.seq().len() && *(#[trigger] iter.seq()[j]) == p;
                        assert(iter.seq().unref()[j] == p);
                    }
                }
                lemma_sum_below(m, seen.insert(*k), m.dom(), 0x1_0000_0000);
            }
            if let Some(v) = self.in_flight_progress.get(k) {
                sum = sum + *v;
            }
        }
        sum
    }

    /// The bytes that have been sent, in completed parts and in flight.
    pub fn uploaded_bytes(&self) -> (r: u64)
        requires
            self@.fits(),
        ensures
            r == self@.sent(),
    {
        self.completed_bytes + self.bytes_in_flight()
    }

    pub fn percentage(&self) -> (r: Percentage)
        requires
            self.status != UploadState::Completed && self.total_bytes != 0 ==> self@.fits(),
        ensures
            r == self@.percentage(),
    {
        if self.status == UploadState::Completed {
            return Percentage::Full;
        }
        if self.total_bytes == 0 {
            return Percentage::Zero;
        }
        Percentage::of(self.uploaded_bytes(), self.total_bytes)
    }

    /// The bytes in flight of the parts other than `part_number`.
    fn other_in_flight(&self, part_number: u32) -> (r: u64)
        requires
            self@.fits(),
        ensures
            r == flying(self@.in_flight.remove(part_number)),
    {
        broadcast use vstd::std_specs::hash::group_hash_axioms;

        let sum: u64 = self.bytes_in_flight();
        proof {
            lemma_flying_insert(self@.in_flight, part_number, 0);
        }
        match self.in_flight_progress.get(&part_number) {
            Some(v) => sum - *v,
            None => sum,
        }
    }

    /// Notes how much of a part has been sent so far.
    pub fn update_in_flight(&mut self, part_number: u32, bytes_uploaded: u64)
        ensures
            final(self)@ == old(self)@.with_flight(part_number, bytes_uploaded),
    {
        broadcast use vstd::std_specs::hash::group_hash_axioms;

        self.in_flight_progress.insert(part_number, bytes_uploaded);
    }

    /// Notes that a part is completed.
    pub fn complete_chunk(&mut self, part_number: u32, chunk_size: u64)
        requires
            old(self)@.completed_bytes + chunk_size <= u64::MAX,
            old(self)@.completed_parts < u32::MAX,
        ensures
            final(self)@ == old(self)@.with_part(part_number, chunk_size),
    {
        broadcast use vstd::std_specs::hash::group_hash_axioms;

        self.in_flight_progress.remove(&part_number);
        self.completed_bytes = self.completed_bytes + chunk_size;
        self.completed_parts = self.completed_parts + 1;
    }

    /// The report on the file.
    pub fn to_file_progress(&self) -> (r: FileProgress)
        requires
            self@.fits(),
        ensures
            r@ == self@.report(),
    {
        FileProgress {
            file_key: Some(self.file_key.clone()),
            file_name: self.file_name.clone(),
            file_hash: self.file_hash.clone(),
            transfer_id: self.transfer_id.clone(),
            total_bytes: self.total_bytes,
            uploaded_bytes: self.uploaded_bytes(),
            completed_parts: self.completed_parts,
            total_parts: self.total_parts,
            percentage: self.percentage(),
            state: self.status,
        }
    }
}

/// News for the caller: a file's progress, and the sums that it changes.
#[derive(Debug)]
pub struct ProgressNotice {
    pub file: FileProgress,
    pub session: AggregateProgress,
    pub transfer: AggregateProgress,
}

/// The content of a `ProgressNotice`.
#[verifier::ext_equal]
pub struct NoticeView {
    pub file: FileProgressView,
    pub session: AggregateProgress,
    pub transfer: AggregateProgress,
}

impl View for ProgressNotice {
    type V = NoticeView;

    open spec fn view(&self) -> NoticeView {
        NoticeView { file: self.file@, session: self.session, transfer: self.transfer }
    }
}

/// The notice behind an optional one.
pub open spec fn notice_opt(n: Option<ProgressNotice>) -> Option<NoticeView> {
    match n {
        Some(v) => Some(v@),
        None => None,
    }
}

/// `agg` with `add` more bytes uploaded; where a file was `touched`, the percentage
/// follows.
pub open spec fn lifted(agg: AggregateProgress, add: nat, touched: bool) -> AggregateProgress {
    let uploaded = if agg.uploaded_size + add <= u64::MAX {
        (agg.uploaded_size + add) as u64
    } else {
        u64::MAX
    };
    AggregateProgress {
        uploaded_size: uploaded,
        percentage: if touched && agg.total_size > 0 {
            Percentage::Ratio { part: uploaded, whole: agg.total_size }
        } else {
            agg.percentage
        },
        ..agg
    }
}

/// The entry belongs to the transfer that is asked for.
pub open spec fn entry_meant(t: Option<Seq<char>>) -> spec_fn((Seq<char>, UploadProgressView)) -> bool {
    |p: (Seq<char>, UploadProgressView)| meant(t, p.1.transfer_id)
}

/// The bytes in flight for transfer `t`, or for all of them.
pub open spec fn flight_of(m: Seq<(Seq<char>, UploadProgressView)>, t: Option<Seq<char>>) -> nat {
    sum_where(
        m,
        entry_meant(t),
        |p: (Seq<char>, UploadProgressView)| flying(p.1.in_flight),
    )
}

/// A file of transfer `t` is tracked.
pub open spec fn tracks(m: Seq<(Seq<char>, UploadProgressView)>, t: Option<Seq<char>>) -> bool {
    exists|i: int| 0 <= i < m.len() && meant(t, (#[trigger] m[i]).1.transfer_id)
}

/// `agg` with the bytes in flight for transfer `t` on top.
pub open spec fn live(
    m: Seq<(Seq<char>, UploadProgressView)>,
    t: Option<Seq<char>>,
    agg: AggregateProgress,
) -> AggregateProgress {
    lifted(agg, flight_of(m, t), tracks(m, t))
}

/// The notice on the file under `key`, with the bytes in flight on top of the sums.
pub open spec fn live_notice(
    m: Seq<(Seq<char>, UploadProgressView)>,
    key: Seq<char>,
    session_agg: AggregateProgress,
    transfer_agg: AggregateProgress,
) -> NoticeView {
    let e = lookup(m, key)->0;
    NoticeView {
        file: e.report(),
        session: live(m, None, session_agg),
        transfer: live(m, Some(e.transfer_id), transfer_agg),
    }
}

/// Every tracked file stands under its own key, once, and its sums are representable.
pub open spec fn tracked_wf(m: Seq<(Seq<char>, UploadProgressView)>) -> bool {
    &&& unique(m)
    &&& forall|i: int| 0 <= i < m.len() ==> (#[trigger] m[i]).1.file_key == m[i].0 && m[i].1.fits()
}

/// A sound registry stays so when a sound entry is put into it.
proof fn lemma_tracked_put(m: Seq<(Seq<char>, UploadProgressView)>, e: UploadProgressView)
    requires
        tracked_wf(m),
        e.fits(),
    ensures
        tracked_wf(put(m, e.file_key, e)),
        lookup(put(m, e.file_key, e), e.file_key) == Some(e),
{
    lemma_put(m, e.file_key, e, e.file_key);
}

/// A tracked file stands under its own key, and its sums are representable.
proof fn lemma_entry(m: Seq<(Seq<char>, UploadProgressView)>, key: Seq<char>)
    requires
        tracked_wf(m),
        holds(m, key),
    ensures
        (lookup(m, key)->0).file_key == key,
        (lookup(m, key)->0).fits(),
{
}

/// The files that are being uploaded.
#[derive(Debug)]
pub struct ProgressManager {
    progress: StringMap<UploadProgress>,
}

impl View for ProgressManager {
    type V = Seq<(Seq<char>, UploadProgressView)>;

    closed spec fn view(&self) -> Seq<(Seq<char>, UploadProgressView)> {
        self.progress@
    }
}

impl ProgressManager {
    pub open spec fn wf(&self) -> bool {
        tracked_wf(self@)
    }

    /// Tracks nothing yet.
    pub fn new() -> (r: Self)
        ensures
            r.wf(),
            r@ == Seq::<(Seq<char>, UploadProgressView)>::empty(),
    {
        ProgressManager { progress: StringMap::new() }
    }

    /// `agg` with the bytes in flight for a transfer, or for all of them, on top.
    fn live_aggregate(&self, transfer_id: Option<&str>, agg: AggregateProgress) -> (r: AggregateProgress)
        requires
            self.wf(),
        ensures
            r == live(self@, str_opt(transfer_id), agg),
    {
        let ghost t = str_opt(transfer_id);
        let ghost m = self@;
        let ghost keep = entry_meant(t);
        let ghost g = |p: (Seq<char>, UploadProgressView)| flying(p.1.in_flight);
        let mut r = agg;
        let mut i: usize = 0;
        while i < self.progress.len()
            invariant
                self.wf(),
                t == str_opt(transfer_id),
                m == self@,
                keep == entry_meant(t),
                g == (|p: (Seq<char>, UploadProgressView)| flying(p.1.in_flight)),
                i <= m.len(),
                r == lifted(
                    agg,
                    sum_where(m.take(i as int), keep, g),
                    tracks(m.take(i as int), t),
                ),
            decreases m.len() - i,
        {
            let p = self.progress.value_at(i);
            proof {
                lemma_sum_step(m, keep, g, i as int);
                assert(m.take(i + 1) =~= m.take(i as int).push(m[i as int]));
                assert(p@ == m[i as int].1);
                if tracks(m.take(i as int), t) {
                    let j = choose|j: int| 0 <= j < i && meant(t, (#[trigger] m.take(i as int)[j]).1.transfer_id);
                    assert(meant(t, m.take(i + 1)[j].1.transfer_id));
                }
                if tracks(m.take(i + 1), t) {
                    let j = choose|j: int| 0 <= j < i + 1 && meant(t, (#[trigger] m.take(i + 1)[j]).1.transfer_id);
                    if j < i {
                        assert(meant(t, m.take(i as int)[j].1.transfer_id));
                    }
                }
            }
            if is_meant(transfer_id, &p.transfer_id) {
                assert(meant(t, m.take(i + 1)[i as int].1.transfer_id));
                let sent: u64 = p.uploaded_bytes();
                let delta: u64 = sent.saturating_sub(p.completed_bytes);
                r.uploaded_size = r.uploaded_size.saturating_add(delta);
                if r.total_size > 0 {
                    r.percentage = Percentage::of(r.uploaded_size, r.total_size);
                }
            }
            i += 1;
        }
        assert(m.take(m.len() as int) =~= m);
        r
    }

    /// Both sums with the bytes in flight on top: those of all files, and those of one
    /// transfer.
    pub fn get_live_aggregate(
        &self,
        session_agg: AggregateProgress,
        transfer_agg: AggregateProgress,
        transfer_id: &str,
    ) -> (r: (AggregateProgress, AggregateProgress))
        requires
            self.wf(),
        ensures
            r.0 == live(self@, None, session_agg),
            r.1 == live(self@, Some(transfer_id@), transfer_agg),
    {
        (self.live_aggregate(None, session_agg), self.live_aggregate(Some(transfer_id), transfer_agg))
    }

    /// The notice on a tracked file.
    fn notice(&self, file_key: &str, session_agg: AggregateProgress, transfer_agg: AggregateProgress) -> (r: Option<ProgressNotice>)
        requires
            self.wf(),
        ensures
            notice_opt(r) == (if holds(self@, file_key@) {
                Some(live_notice(self@, file_key@, session_agg, transfer_agg))
            } else {
                None
            }),
    {
        match self.progress.get(file_key) {
            Some(p) => {
                proof {
                    lemma_entry(self@, file_key@);
                }
                let (session, transfer) = self.get_live_aggregate(
                    session_agg,
                    transfer_agg,
                    p.transfer_id.as_str(),
                );
                Some(ProgressNotice { file: p.to_file_progress(), session, transfer })
            },
            None => None,
        }
    }

    /// Puts an entry under its key, and reports it with the sums as they are.
    fn track(
        &mut self,
        p: UploadProgress,
        session_agg: AggregateProgress,
        transfer_agg: AggregateProgress,
    ) -> (r: ProgressNotice)
        requires
            old(self).wf(),
            p@.fits(),
        ensures
            final(self).wf(),
            final(self)@ == put(old(self)@, p@.file_key, p@),
            r@ == (NoticeView { file: p@.report(), session: session_agg, transfer: transfer_agg }),
    {
        proof {
            lemma_tracked_put(self@, p@);
        }
        let file = p.to_file_progress();
        self.progress.insert(p.file_key.clone(), p);
        ProgressNotice { file, session: session_agg, transfer: transfer_agg }
    }

    /// Begins to track a file that runs.
    pub fn init(
        &mut self,
        file_key: String,
        file_name: String,
        file_hash: String,
        transfer_id: String,
        total_bytes: u64,
        total_parts: u32,
        already_completed_bytes: u64,
        already_completed_parts: u32,
        session_agg: AggregateProgress,
        transfer_agg: AggregateProgress,
    ) -> (r: ProgressNotice)
        requires
            old(self).wf(),
        ensures
            final(self).wf(),
            ({
                let e = UploadProgressView {
                    file_key: file_key@,
                    file_name: file_name@,
                    file_hash: file_hash@,
                    transfer_id: transfer_id@,
                    total_bytes,
                    total_parts,
                    completed_bytes: already_completed_bytes,
                    in_flight: Map::empty(),
                    completed_parts: already_completed_parts,
                    status: UploadState::Running,
                };
                &&& final(self)@ == put(old(self)@, file_key@, e)
                &&& r@ == (NoticeView { file: e.report(), session: session_agg, transfer: transfer_agg })
            }),
    {
        let mut p = UploadProgress::new(file_key, transfer_id, total_bytes, total_parts);
        p.file_name = file_name;
        p.file_hash = file_hash;
        p.completed_bytes = already_completed_bytes;
        p.completed_parts = already_completed_parts;
        proof {
            lemma_sum_below_none(Map::empty(), 0x1_0000_0000);
            assert(Map::<u32, u64>::empty().dom() =~= Set::empty());
        }
        self.track(p, session_agg, transfer_agg)
    }

    /// Begins to track a file in state `state`, before any part of it is sent.
    pub fn register_not_started(
        &mut self,
        file_key: String,
        file_name: String,
        file_hash: String,
        transfer_id: String,
        total_bytes: u64,
        committed_bytes: u64,
        committed_parts: u32,
        state: UploadState,
        session_agg: AggregateProgress,
        transfer_agg: AggregateProgress,
    ) -> (r: ProgressNotice)
        requires
            old(self).wf(),
        ensures
            final(self).wf(),
            ({
                let e = UploadProgressView {
                    file_key: file_key@,
                    file_name: file_name@,
                    file_hash: file_hash@,
                    transfer_id: transfer_id@,
                    total_bytes,
                    total_parts: 0,
                    completed_bytes: committed_bytes,
                    in_flight: Map::empty(),
                    completed_parts: committed_parts,
                    status: state,
                };
                &&& final(self)@ == put(old(self)@, file_key@, e)
                &&& r@ == (NoticeView { file: e.report(), session: session_agg, transfer: transfer_agg })
            }),
    {
        let mut p = UploadProgress::new(file_key, transfer_id, total_bytes, 0);
        p.file_name = file_name;
        p.file_hash = file_hash;
        p.completed_bytes = committed_bytes;
        p.completed_parts = committed_parts;
        p.status = state;
        proof {
            lemma_sum_below_none(Map::empty(), 0x1_0000_0000);
            assert(Map::<u32, u64>::empty().dom() =~= Set::empty());
        }
        self.track(p, session_agg, transfer_agg)
    }

    /// The keys of the tracked files.
    pub fn tracked_file_keys(&self) -> (r: Vec<String>)
        ensures
            texts(r@) == self@.map_values(|p: (Seq<char>, UploadProgressView)| p.0),
    {
        let ghost keys = self@.map_values(|p: (Seq<char>, UploadProgressView)| p.0);
        let mut r: Vec<String> = Vec::new();
        let mut i: usize = 0;
        while i < self.progress.len()
            invariant
                i <= self@.len(),
                keys == self@.map_values(|p: (Seq<char>, UploadProgressView)| p.0),
                texts(r@) =~= keys.take(i as int),
            decreases self@.len() - i,
        {
            let ghost before = texts(r@);
            r.push(self.progress.key_at(i).clone());
            assert(texts(r@) =~= before.push(keys[i as int]));
            i += 1;
        }
        assert(texts(r@) =~= keys);
        r
    }

    /// Forgets every file.
    pub fn clear(&mut self)
        ensures
            final(self).wf(),
            final(self)@ == Seq::<(Seq<char>, UploadProgressView)>::empty(),
    {
        self.progress.clear();
    }

    /// Forgets a file.
    pub fn remove(&mut self, file_key: &str)
        requires
            old(self).wf(),
        ensures
            final(self).wf(),
            final(self)@ == without(old(self)@, file_key@),
    {
        proof {
            lemma_without(self@, file_key@, file_key@);
        }
        let _ = self.progress.remove(file_key);
    }

    /// Whether the sums of a file stay representable with this much of a part sent.
    pub fn accepts_in_flight(&self, file_key: &str, part_number: u32, bytes_uploaded: u64) -> (r: bool)
        requires
            self.wf(),
        ensures
            r == (lookup(self@, file_key@) matches Some(e) ==> e.with_flight(part_number, bytes_uploaded).fits()),
    {
        match self.progress.get(file_key) {
            Some(p) => {
                proof {
                    lemma_entry(self@, file_key@);
                    lemma_flying_insert(p@.in_flight, part_number, bytes_uploaded);
                }
                match p.other_in_flight(part_number).checked_add(bytes_uploaded) {
                    Some(sum) => p.completed_bytes.checked_add(sum).is_some(),
                    None => false,
                }
            },
            None => true,
        }
    }

    /// Whether the sums of a file stay representable with this part completed.
    pub fn accepts_chunk(&self, file_key: &str, part_number: u32, chunk_size: u64) -> (r: bool)
        requires
            self.wf(),
        ensures
            r == (lookup(self@, file_key@) matches Some(e) ==> can_complete(e, part_number, chunk_size)),
    {
        match self.progress.get(file_key) {
            Some(p) => {
                proof {
                    lemma_entry(self@, file_key@);
                }
                let others: u64 = p.other_in_flight(part_number);
                match p.completed_bytes.checked_add(chunk_size) {
                    Some(done) => p.completed_parts < u32::MAX && done.checked_add(others).is_some(),
                    None => false,
                }
            },
            None => true,
        }
    }

    /// Notes how much of a part has been sent so far. Only a running file gives a notice.
    pub fn update_in_flight(
        &mut self,
        file_key: &str,
        part_number: u32,
        bytes_uploaded: u64,
        session_agg: AggregateProgress,
        transfer_agg: AggregateProgress,
    ) -> (r: Option<ProgressNotice>)
        requires
            old(self).wf(),
            lookup(old(self)@, file_key@) matches Some(e) ==> e.with_flight(part_number, bytes_uploaded).fits(),
        ensures
            final(self).wf(),
            match lookup(old(self)@, file_key@) {
                Some(e) => {
                    &&& final(self)@ == put(old(self)@, file_key@, e.with_flight(part_number, bytes_uploaded))
                    &&& notice_opt(r) == (if e.status == UploadState::Running {
                        Some(live_notice(final(self)@, file_key@, session_agg, transfer_agg))
                    } else {
                        None
                    })
                },
                None => final(self)@ == old(self)@ && r is None,
            },
    {
        proof {
            if holds(self@, file_key@) {
                let e = lookup(self@, file_key@)->0;
                lemma_tracked_put(self@, e.with_flight(part_number, bytes_uploaded));
            }
        }
        let running = match self.progress.get_mut(file_key) {
            Some(p) => {
                p.update_in_flight(part_number, bytes_uploaded);
                p.status == UploadState::Running
            },
            None => false,
        };
        if running {
            self.notice(file_key, session_agg, transfer_agg)
        } else {
            None
        }
    }

    /// Notes that a part is completed.
    pub fn complete_chunk(
        &mut self,
        file_key: &str,
        part_number: u32,
        chunk_size: u64,
        session_agg: AggregateProgress,
        transfer_agg: AggregateProgress,
    ) -> (r: Option<ProgressNotice>)
        requires
            old(self).wf(),
            lookup(old(self)@, file_key@) matches Some(e) ==> can_complete(e, part_number, chunk_size),
        ensures
            final(self).wf(),
            match lookup(old(self)@, file_key@) {
                Some(e) => {
                    &&& final(self)@ == put(old(self)@, file_key@, e.with_part(part_number, chunk_size))
                    &&& notice_opt(r) == Some(live_notice(final(self)@, file_key@, session_agg, transfer_agg))
                },
                None => final(self)@ == old(self)@ && r is None,
            },
    {
        proof {
            if holds(self@, file_key@) {
                let e = lookup(self@, file_key@)->0;
                lemma_tracked_put(self@, e.with_part(part_number, chunk_size));
            }
        }
        if let Some(p) = self.progress.get_mut(file_key) {
            p.complete_chunk(part_number, chunk_size);
        }
        self.notice(file_key, session_agg, transfer_agg)
    }

    /// Moves a file to another state.
    pub fn set_status(
        &mut self,
        file_key: &str,
        status: UploadState,
        session_agg: AggregateProgress,
        transfer_agg: AggregateProgress,
    ) -> (r: Option<ProgressNotice>)
        requires
            old(self).wf(),
        ensures
            final(self).wf(),
            match lookup(old(self)@, file_key@) {
                Some(e) => {
                    &&& final(self)@ == put(old(self)@, file_key@, UploadProgressView { status, ..e })
                    &&& notice_opt(r) == Some(live_notice(final(self)@, file_key@, session_agg, transfer_agg))
                },
                None => final(self)@ == old(self)@ && r is None,
            },
    {
        proof {
            if holds(self@, file_key@) {
                let e = lookup(self@, file_key@)->0;
                lemma_tracked_put(self@, UploadProgressView { status, ..e });
            }
        }
        if let Some(p) = self.progress.get_mut(file_key) {
            p.status = status;
        }
        self.notice(file_key, session_agg, transfer_agg)
    }

    /// The live reports on the tracked files that are asked for.
    pub fn get_live_progress(&self, transfer_id: Option<&str>, file_key: Option<&str>) -> (r: Vec<FileProgress>)
        requires
            self.wf(),
        ensures
            reports(r@) == live_reports(self@, str_opt(transfer_id), str_opt(file_key)),
    {
        let ghost t = str_opt(transfer_id);
        let ghost k = str_opt(file_key);
        let ghost m = self@;
        let ghost keep = |p: (Seq<char>, UploadProgressView)| meant(t, p.1.transfer_id) && meant(k, p.1.file_key);
        let ghost report = |p: (Seq<char>, UploadProgressView)| p.1.report();
        let mut r: Vec<FileProgress> = Vec::new();
        proof {
            lemma_filter_none(m, keep);
            assert(reports(r@) =~= m.take(0).filter(keep).map_values(report));
        }
        let mut i: usize = 0;
        while i < self.progress.len()
            invariant
                self.wf(),
                m == self@,
                t == str_opt(transfer_id),
                k == str_opt(file_key),
                keep == (|p: (Seq<char>, UploadProgressView)| meant(t, p.1.transfer_id) && meant(k, p.1.file_key)),
                report == (|p: (Seq<char>, UploadProgressView)| p.1.report()),
                i <= m.len(),
                reports(r@) == m.take(i as int).filter(keep).map_values(report),
            decreases m.len() - i,
        {
            let p = self.progress.value_at(i);
            proof {
                lemma_filter_step(m, keep, i as int);
                assert(p@ == m[i as int].1);
            }
            if is_meant(transfer_id, &p.transfer_id) && is_meant(file_key, &p.file_key) {
                let ghost before = reports(r@);
                r.push(p.to_file_progress());
                assert(reports(r@) =~= before.push(p@.report()));
                assert(reports(r@) =~= m.take(i + 1).filter(keep).map_values(report));
            }
            i += 1;
        }
        proof {
            lemma_filter_none(m, keep);
        }
        r
    }
}

/// A part of `size` bytes can be completed without leaving the range of the sums.
pub open spec fn can_complete(e: UploadProgressView, p: u32, size: u64) -> bool {
    &&& e.completed_bytes + size <= u64::MAX
    &&& e.completed_parts < u32::MAX
    &&& e.with_part(p, size).fits()
}

/// The reports on the tracked files that are asked for.
pub open spec fn live_reports(
    m: Seq<(Seq<char>, UploadProgressView)>,
    t: Option<Seq<char>>,
    k: Option<Seq<char>>,
) -> Seq<FileProgressView> {
    m.filter(
        |p: (Seq<char>, UploadProgressView)| meant(t, p.1.transfer_id) && meant(k, p.1.file_key),
    ).map_values(|p: (Seq<char>, UploadProgressView)| p.1.report())
}

} // verus!
