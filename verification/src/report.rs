//! Progress reports: what a file, a transfer or the whole session has got done.

use crate::arith::{low32, low_bits};
use crate::session::{at_rest, str_opt, text_opt, FileEntry, FileView, PendingFileEntry, PendingView, Session, SessionView};
use crate::state::{percentage_of, GlobalUploaderState, Percentage, UploadState};
use crate::string_map::lookup;
use crate::text::same_text;
use crate::transfers::{transfers_at, transfers_len, TransferEntry, TransferView};
use vstd::prelude::*;

verus! {

/// Progress of one file. A file that waits for its start call has no key yet.
#[derive(Debug)]
pub struct FileProgress {
    pub file_key: Option<String>,
    pub file_name: String,
    pub file_hash: String,
    pub transfer_id: String,
    pub total_bytes: u64,
    pub uploaded_bytes: u64,
    pub completed_parts: u32,
    pub total_parts: u32,
    pub percentage: Percentage,
    pub state: UploadState,
}

/// The content of a `FileProgress`.
#[verifier::ext_equal]
pub struct FileProgressView {
    pub file_key: Option<Seq<char>>,
    pub file_name: Seq<char>,
    pub file_hash: Seq<char>,
    pub transfer_id: Seq<char>,
    pub total_bytes: u64,
    pub uploaded_bytes: u64,
    pub completed_parts: u32,
    pub total_parts: u32,
    pub percentage: Percentage,
    pub state: UploadState,
}

impl View for FileProgress {
    type V = FileProgressView;

    open spec fn view(&self) -> FileProgressView {
        FileProgressView {
            file_key: text_opt(self.file_key),
            file_name: self.file_name@,
            file_hash: self.file_hash@,
            transfer_id: self.transfer_id@,
            total_bytes: self.total_bytes,
            uploaded_bytes: self.uploaded_bytes,
            completed_parts: self.completed_parts,
            total_parts: self.total_parts,
            percentage: self.percentage,
            state: self.state,
        }
    }
}

/// Progress summed up over a transfer or over the session.
#[derive(Debug, Clone, Copy, PartialEq, Eq)]
pub struct AggregateProgress {
    pub percentage: Percentage,
    pub total_size: u64,
    pub uploaded_size: u64,
    /// `None` where the report is about a single transfer.
    pub total_transfers: Option<u32>,
    pub completed_transfers: Option<u32>,
    pub total_files: u32,
    pub completed_files: u32,
    pub state: GlobalUploaderState,
}

/// The report on a registered file.
pub open spec fn file_report(f: FileView) -> FileProgressView {
    FileProgressView {
        file_key: Some(f.file_key),
        file_name: f.file_name,
        file_hash: f.file_hash,
        transfer_id: f.transfer_id,
        total_bytes: f.total_bytes,
        uploaded_bytes: f.uploaded_bytes,
        completed_parts: f.completed_parts,
        total_parts: f.total_parts,
        percentage: f.percentage(),
        state: f.state,
    }
}

/// The report on a file that waits for its start call.
pub open spec fn pending_report(p: PendingView) -> FileProgressView {
    FileProgressView {
        file_key: None,
        file_name: p.file_name,
        file_hash: p.file_hash,
        transfer_id: p.transfer_id,
        total_bytes: p.file_size,
        uploaded_bytes: 0,
        completed_parts: 0,
        total_parts: 0,
        percentage: Percentage::Zero,
        state: UploadState::NotStarted,
    }
}

/// `id` is the one that is asked for; where none is asked for, every one is meant.
pub open spec fn meant(asked: Option<Seq<char>>, id: Seq<char>) -> bool {
    match asked {
        Some(a) => a == id,
        None => true,
    }
}

/// The reports behind a vector of them.
pub open spec fn reports(v: Seq<FileProgress>) -> Seq<FileProgressView> {
    v.map_values(|p: FileProgress| p@)
}

/// The sum of `g` over the items of `s` that `keep` accepts.
pub open spec fn sum_where<A>(s: Seq<A>, keep: spec_fn(A) -> bool, g: spec_fn(A) -> nat) -> nat
    decreases s.len(),
{
    if s.len() == 0 {
        0
    } else {
        sum_where(s.drop_last(), keep, g) + (if keep(s.last()) {
            g(s.last())
        } else {
            0
        })
    }
}

impl SessionView {
    /// The file belongs to the transfer that is asked for.
    pub open spec fn file_meant(t: Option<Seq<char>>) -> spec_fn((Seq<char>, FileView)) -> bool {
        |p: (Seq<char>, FileView)| meant(t, p.1.transfer_id)
    }

    /// The pending file belongs to the transfer that is asked for.
    pub open spec fn pending_meant(t: Option<Seq<char>>) -> spec_fn(
        (Seq<char>, PendingView),
    ) -> bool {
        |p: (Seq<char>, PendingView)| meant(t, p.1.transfer_id)
    }

    /// The bytes of the files of transfer `t`, the pending ones among them.
    pub open spec fn size_of(self, t: Option<Seq<char>>) -> nat {
        sum_where(
            self.files,
            Self::file_meant(t),
            |p: (Seq<char>, FileView)| p.1.total_bytes as nat,
        ) + sum_where(
            self.pending_files,
            Self::pending_meant(t),
            |p: (Seq<char>, PendingView)| p.1.file_size as nat,
        )
    }

    /// The bytes of transfer `t` that are stored.
    pub open spec fn stored_of(self, t: Option<Seq<char>>) -> nat {
        sum_where(
            self.files,
            Self::file_meant(t),
            |p: (Seq<char>, FileView)| p.1.uploaded_bytes as nat,
        )
    }

    /// The registered files of transfer `t`.
    pub open spec fn files_of(self, t: Option<Seq<char>>) -> Seq<(Seq<char>, FileView)> {
        self.files.filter(Self::file_meant(t))
    }

    /// The pending files of transfer `t`.
    pub open spec fn pending_of(self, t: Option<Seq<char>>) -> Seq<(Seq<char>, PendingView)> {
        self.pending_files.filter(Self::pending_meant(t))
    }

    /// The completed files of transfer `t`.
    pub open spec fn completed_of(self, t: Option<Seq<char>>) -> Seq<(Seq<char>, FileView)> {
        self.files.filter(
            |p: (Seq<char>, FileView)|
                meant(t, p.1.transfer_id) && p.1.state == UploadState::Completed,
        )
    }

    /// Every file of the transfer is completed and none is pending.
    pub open spec fn transfer_done(self, tr: TransferView) -> bool {
        &&& forall|i: int|
            0 <= i < tr.file_keys.len() ==> self.key_completed(#[trigger] tr.file_keys[i])
        &&& !self.pending_in(tr.transfer_id)
    }

    /// The file under `key` is there and completed.
    pub open spec fn key_completed(self, key: Seq<char>) -> bool {
        lookup(self.files, key) matches Some(f) && f.state == UploadState::Completed
    }

    /// A file of transfer `id` waits for its start call.
    pub open spec fn pending_in(self, id: Seq<char>) -> bool {
        exists|i: int|
            0 <= i < self.pending_files.len() && (#[trigger] self.pending_files[i]).1.transfer_id
                == id
    }

    /// Some file of transfer `t` is in state `st`.
    pub open spec fn some_in(self, t: Option<Seq<char>>, st: UploadState) -> bool {
        exists|i: int|
            0 <= i < self.files.len() && meant(t, (#[trigger] self.files[i]).1.transfer_id)
                && self.files[i].1.state == st
    }

    /// Some file of transfer `t` runs and has its local file.
    pub open spec fn running_in(self, t: Option<Seq<char>>) -> bool {
        exists|i: int|
            0 <= i < self.files.len() && meant(t, (#[trigger] self.files[i]).1.transfer_id)
                && self.files[i].1.state == UploadState::Running
                && !self.files_needing_provision.contains(self.files[i].1.file_hash)
    }

    /// Every file of transfer `t` is completed.
    pub open spec fn completed_in(self, t: Option<Seq<char>>) -> bool {
        forall|i: int|
            0 <= i < self.files.len() && meant(t, (#[trigger] self.files[i]).1.transfer_id)
                ==> self.files[i].1.state == UploadState::Completed
    }

    /// No file of transfer `t` runs, has failed or was cancelled.
    pub open spec fn resting_in(self, t: Option<Seq<char>>) -> bool {
        forall|i: int|
            0 <= i < self.files.len() && meant(t, (#[trigger] self.files[i]).1.transfer_id)
                ==> at_rest(self.files[i].1.state)
    }

    /// The state of transfer `t`, or of all of them.
    pub open spec fn state_of(self, t: Option<Seq<char>>) -> GlobalUploaderState {
        if self.files_of(t).len() == 0 && self.pending_of(t).len() == 0 {
            GlobalUploaderState::NotStarted
        } else if self.pending_of(t).len() == 0 && self.completed_in(t) {
            GlobalUploaderState::Completed
        } else if self.running_in(t) {
            GlobalUploaderState::Running
        } else if self.some_in(t, UploadState::Failed) {
            GlobalUploaderState::Failed
        } else if self.resting_in(t) && self.some_in(t, UploadState::Paused) {
            GlobalUploaderState::Paused
        } else {
            self.global_state
        }
    }

    /// The sums over transfer `t` fit the fields of a report.
    pub open spec fn countable(self, t: Option<Seq<char>>) -> bool {
        &&& self.size_of(t) <= u64::MAX
        &&& self.stored_of(t) <= u64::MAX
        &&& low32(self.files_of(t).len()) + low32(self.pending_of(t).len()) <= u32::MAX
    }

    /// No file has more bytes stored than it has, and the sums over the whole session are
    /// representable.
    pub open spec fn sound_sizes(self) -> bool {
        &&& forall|i: int|
            0 <= i < self.files.len() ==> (#[trigger] self.files[i]).1.uploaded_bytes
                <= self.files[i].1.total_bytes
        &&& self.size_of(None) <= u64::MAX
        &&& self.files.len() + self.pending_files.len() <= u32::MAX
    }

    /// The report on transfer `t`, or on the session.
    pub open spec fn aggregate(self, t: Option<Seq<char>>) -> AggregateProgress {
        let done = self.state_of(t) == GlobalUploaderState::Completed;
        let size = self.size_of(t) as u64;
        let stored = self.stored_of(t) as u64;
        AggregateProgress {
            percentage: if done {
                Percentage::Full
            } else {
                percentage_of(stored, size)
            },
            total_size: size,
            uploaded_size: if done {
                size
            } else {
                stored
            },
            total_transfers: if t is None {
                Some(low32(self.transfers.len()))
            } else {
                None
            },
            completed_transfers: if t is None {
                Some(
                    low32(
                        self.transfers.filter(
                            |p: (Seq<char>, TransferView)| self.transfer_done(p.1),
                        ).len(),
                    ),
                )
            } else {
                None
            },
            total_files: (low32(self.files_of(t).len()) + low32(self.pending_of(t).len())) as u32,
            completed_files: low32(self.completed_of(t).len()),
            state: self.state_of(t),
        }
    }

    /// The reports on the files that are asked for, the registered ones first. A pending
    /// file has no key to ask for it by.
    pub open spec fn file_reports(
        self,
        t: Option<Seq<char>>,
        k: Option<Seq<char>>,
    ) -> Seq<FileProgressView> {
        let registered = self.files.filter(
            |p: (Seq<char>, FileView)| meant(t, p.1.transfer_id) && meant(k, p.1.file_key),
        ).map_values(|p: (Seq<char>, FileView)| file_report(p.1));
        if k is None {
            registered + self.pending_of(t).map_values(
                |p: (Seq<char>, PendingView)| pending_report(p.1),
            )
        } else {
            registered
        }
    }
}

/// Changing the items in ways that neither `keep` nor `g` sees changes no sum and no count.
proof fn lemma_map_kept<A>(s: Seq<A>, h: spec_fn(A) -> A, keep: spec_fn(A) -> bool, g: spec_fn(A) -> nat)
    requires
        forall|x: A| keep(#[trigger] h(x)) == keep(x) && g(h(x)) == g(x),
    ensures
        sum_where(s.map_values(h), keep, g) == sum_where(s, keep, g),
        s.map_values(h).filter(keep).len() == s.filter(keep).len(),
    decreases s.len(),
{
    reveal(Seq::filter);
    if s.len() > 0 {
        lemma_map_kept(s.drop_last(), h, keep, g);
        assert(s.map_values(h).drop_last() =~= s.drop_last().map_values(h));
    }
}

/// A change of files that keeps their transfers and sizes keeps the sums and counts.
pub proof fn lemma_countable_kept(s: SessionView, h: spec_fn(FileView) -> FileView, t: Option<Seq<char>>)
    requires
        forall|f: FileView|
            (#[trigger] h(f)).transfer_id == f.transfer_id && h(f).total_bytes == f.total_bytes
                && h(f).uploaded_bytes == f.uploaded_bytes,
    ensures
        s.with_files(h).recomputed().size_of(t) == s.size_of(t),
        s.with_files(h).recomputed().stored_of(t) == s.stored_of(t),
        s.with_files(h).recomputed().countable(t) == s.countable(t),
{
    let on_pair = |p: (Seq<char>, FileView)| (p.0, h(p.1));
    let keep = SessionView::file_meant(t);
    let size = |p: (Seq<char>, FileView)| p.1.total_bytes as nat;
    let stored = |p: (Seq<char>, FileView)| p.1.uploaded_bytes as nat;
    lemma_map_kept(s.files, on_pair, keep, size);
    lemma_map_kept(s.files, on_pair, keep, stored);
}

/// A change of files that keeps their transfers and sizes keeps the size of a transfer.
pub proof fn lemma_size_kept(s: SessionView, h: spec_fn(FileView) -> FileView, t: Option<Seq<char>>)
    requires
        forall|f: FileView| (#[trigger] h(f)).transfer_id == f.transfer_id && h(f).total_bytes == f.total_bytes,
    ensures
        s.with_files(h).size_of(t) == s.size_of(t),
{
    let on_pair = |p: (Seq<char>, FileView)| (p.0, h(p.1));
    let keep = SessionView::file_meant(t);
    let size = |p: (Seq<char>, FileView)| p.1.total_bytes as nat;
    lemma_map_kept(s.files, on_pair, keep, size);
}

/// A part of the files holds at most as many bytes as all of them.
proof fn lemma_sum_part<A>(s: Seq<A>, some: spec_fn(A) -> bool, all: spec_fn(A) -> bool, g: spec_fn(A) -> nat)
    requires
        forall|x: A| #[trigger] some(x) ==> all(x),
    ensures
        sum_where(s, some, g) <= sum_where(s, all, g),
    decreases s.len(),
{
    if s.len() > 0 {
        lemma_sum_part(s.drop_last(), some, all, g);
    }
}

/// Where `g` is at most `h`, so is its sum.
proof fn lemma_sum_less<A>(s: Seq<A>, keep: spec_fn(A) -> bool, g: spec_fn(A) -> nat, h: spec_fn(A) -> nat)
    requires
        forall|i: int| 0 <= i < s.len() ==> g(#[trigger] s[i]) <= h(s[i]),
    ensures
        sum_where(s, keep, g) <= sum_where(s, keep, h),
    decreases s.len(),
{
    if s.len() > 0 {
        let front = s.drop_last();
        assert forall|i: int| 0 <= i < front.len() implies g(#[trigger] front[i]) <= h(front[i]) by {
            assert(front[i] == s[i]);
        }
        lemma_sum_less(front, keep, g, h);
        assert(s[s.len() - 1] == s.last());
    }
}

/// With sound sizes, every report can be made, and no report shows more bytes stored
/// than there are.
pub proof fn lemma_sound_countable(s: SessionView, t: Option<Seq<char>>)
    requires
        s.sound_sizes(),
    ensures
        s.countable(t),
        s.stored_of(t) <= s.size_of(t),
        s.size_of(t) <= s.size_of(None),
{
    broadcast use vstd::seq_lib::group_filter_ensures;

    let size = |p: (Seq<char>, FileView)| p.1.total_bytes as nat;
    let stored = |p: (Seq<char>, FileView)| p.1.uploaded_bytes as nat;
    let waiting = |p: (Seq<char>, PendingView)| p.1.file_size as nat;
    lemma_sum_part(s.files, SessionView::file_meant(t), SessionView::file_meant(None), size);
    lemma_sum_part(s.pending_files, SessionView::pending_meant(t), SessionView::pending_meant(None), waiting);
    lemma_sum_less(s.files, SessionView::file_meant(t), stored, size);
    assert(s.files_of(t).len() <= s.files.len());
    assert(s.pending_of(t).len() <= s.pending_files.len());
}

/// What a filter keeps sums up to at most the whole sum.
pub proof fn lemma_sum_filtered<A>(s: Seq<A>, f: spec_fn(A) -> bool, keep: spec_fn(A) -> bool, g: spec_fn(A) -> nat)
    ensures
        sum_where(s.filter(f), keep, g) <= sum_where(s, keep, g),
    decreases s.len(),
{
    reveal(Seq::filter);
    if s.len() > 0 {
        lemma_sum_filtered(s.drop_last(), f, keep, g);
        let front = s.drop_last().filter(f);
        assert(front.push(s.last()).drop_last() =~= front);
    }
}

/// The sum of `f` over `ids`.
pub open spec fn sum_over(ids: Seq<Seq<char>>, f: spec_fn(Seq<char>) -> nat) -> nat
    decreases ids.len(),
{
    if ids.len() == 0 {
        0
    } else {
        sum_over(ids.drop_last(), f) + f(ids.last())
    }
}

/// The sum of two functions is the sum of their sums.
proof fn lemma_sum_over_two(
    ids: Seq<Seq<char>>,
    f: spec_fn(Seq<char>) -> nat,
    g: spec_fn(Seq<char>) -> nat,
    h: spec_fn(Seq<char>) -> nat,
)
    requires
        forall|id: Seq<char>| #[trigger] h(id) == f(id) + g(id),
    ensures
        sum_over(ids, h) == sum_over(ids, f) + sum_over(ids, g),
    decreases ids.len(),
{
    if ids.len() > 0 {
        lemma_sum_over_two(ids.drop_last(), f, g, h);
    }
}

/// Where `f` is `v` at `x` and nothing elsewhere, its sum is `v` if `x` is there.
proof fn lemma_sum_over_one(ids: Seq<Seq<char>>, f: spec_fn(Seq<char>) -> nat, x: Seq<char>, v: nat)
    requires
        ids.no_duplicates(),
        forall|id: Seq<char>| #[trigger] f(id) == (if id == x { v } else { 0 }),
    ensures
        sum_over(ids, f) == (if ids.contains(x) { v } else { 0 }),
    decreases ids.len(),
{
    if ids.len() > 0 {
        let front = ids.drop_last();
        lemma_sum_over_one(front, f, x, v);
        assert(ids[ids.len() - 1] == ids.last());
        if front.contains(x) {
            let i = choose|i: int| 0 <= i < front.len() && front[i] == x;
            assert(ids[i] == x);
        }
        if ids.contains(x) && ids.last() != x {
            let i = choose|i: int| 0 <= i < ids.len() && ids[i] == x;
            assert(front[i] == x);
        }
    }
}

/// Cut up by transfer, a sum stays what it is.
proof fn lemma_sum_by_transfer<A>(
    s: Seq<A>,
    transfer: spec_fn(A) -> Seq<char>,
    keep: spec_fn(Option<Seq<char>>) -> spec_fn(A) -> bool,
    g: spec_fn(A) -> nat,
    ids: Seq<Seq<char>>,
)
    requires
        ids.no_duplicates(),
        forall|i: int| 0 <= i < s.len() ==> ids.contains(transfer(#[trigger] s[i])),
        forall|t: Option<Seq<char>>, x: A| #[trigger] keep(t)(x) == meant(t, transfer(x)),
    ensures
        sum_over(ids, |id: Seq<char>| sum_where(s, keep(Some(id)), g)) == sum_where(s, keep(None), g),
    decreases s.len(),
{
    let whole = |id: Seq<char>| sum_where(s, keep(Some(id)), g);
    if s.len() == 0 {
        lemma_sum_over_zero(ids, whole);
    } else {
        let front = s.drop_last();
        let x = s.last();
        assert forall|i: int| 0 <= i < front.len() implies ids.contains(transfer(#[trigger] front[i])) by {
            assert(front[i] == s[i]);
        }
        lemma_sum_by_transfer(front, transfer, keep, g, ids);
        let before = |id: Seq<char>| sum_where(front, keep(Some(id)), g);
        let one = |id: Seq<char>| if id == transfer(x) { g(x) } else { 0 };
        assert forall|id: Seq<char>| #[trigger] whole(id) == before(id) + one(id) by {
            assert(keep(Some(id))(x) == meant(Some(id), transfer(x)));
        }
        lemma_sum_over_two(ids, before, one, whole);
        lemma_sum_over_one(ids, one, transfer(x), g(x));
        assert(s[s.len() - 1] == x);
        assert(keep(None)(x) == meant(None, transfer(x)));
    }
}

/// A sum of nothings is nothing.
proof fn lemma_sum_over_zero(ids: Seq<Seq<char>>, f: spec_fn(Seq<char>) -> nat)
    requires
        forall|id: Seq<char>| #[trigger] f(id) == 0,
    ensures
        sum_over(ids, f) == 0,
    decreases ids.len(),
{
    if ids.len() > 0 {
        lemma_sum_over_zero(ids.drop_last(), f);
    }
}

/// The number of items that a filter keeps.
proof fn lemma_filter_count<A>(s: Seq<A>, keep: spec_fn(A) -> bool, one: spec_fn(A) -> nat)
    requires
        forall|x: A| #[trigger] one(x) == 1,
    ensures
        s.filter(keep).len() == sum_where(s, keep, one),
    decreases s.len(),
{
    reveal(Seq::filter);
    if s.len() > 0 {
        lemma_filter_count(s.drop_last(), keep, one);
        assert(one(s.last()) == 1);
    }
}

/// Every file and every pending file of the session belongs to one of `ids`, and none of
/// these is there twice.
pub open spec fn lists_all(s: SessionView, ids: Seq<Seq<char>>) -> bool {
    &&& ids.no_duplicates()
    &&& forall|i: int| 0 <= i < s.files.len() ==> ids.contains((#[trigger] s.files[i]).1.transfer_id)
    &&& forall|i: int| 0 <= i < s.pending_files.len() ==> ids.contains((#[trigger] s.pending_files[i]).1.transfer_id)
}

/// The totals of the session are the sums over its transfers: bytes, stored bytes, files,
/// pending files and completed files.
pub proof fn lemma_totals_by_transfer(s: SessionView, ids: Seq<Seq<char>>)
    requires
        lists_all(s, ids),
    ensures
        s.size_of(None) == sum_over(ids, |id: Seq<char>| s.size_of(Some(id))),
        s.stored_of(None) == sum_over(ids, |id: Seq<char>| s.stored_of(Some(id))),
        s.files_of(None).len() == sum_over(ids, |id: Seq<char>| s.files_of(Some(id)).len()),
        s.pending_of(None).len() == sum_over(ids, |id: Seq<char>| s.pending_of(Some(id)).len()),
        s.completed_of(None).len() == sum_over(ids, |id: Seq<char>| s.completed_of(Some(id)).len()),
{
    let of_file = |p: (Seq<char>, FileView)| p.1.transfer_id;
    let of_pending = |p: (Seq<char>, PendingView)| p.1.transfer_id;
    let file_meant = |t: Option<Seq<char>>| SessionView::file_meant(t);
    let pending_meant = |t: Option<Seq<char>>| SessionView::pending_meant(t);
    let size = |p: (Seq<char>, FileView)| p.1.total_bytes as nat;
    let stored = |p: (Seq<char>, FileView)| p.1.uploaded_bytes as nat;
    let waiting = |p: (Seq<char>, PendingView)| p.1.file_size as nat;
    let one = |p: (Seq<char>, FileView)| 1nat;
    let one_pending = |p: (Seq<char>, PendingView)| 1nat;
    lemma_sum_by_transfer(s.files, of_file, file_meant, size, ids);
    lemma_sum_by_transfer(s.files, of_file, file_meant, stored, ids);
    lemma_sum_by_transfer(s.files, of_file, file_meant, one, ids);
    lemma_sum_by_transfer(s.pending_files, of_pending, pending_meant, waiting, ids);
    lemma_sum_by_transfer(s.pending_files, of_pending, pending_meant, one_pending, ids);
    lemma_sum_over_two(
        ids,
        |id: Seq<char>| sum_where(s.files, file_meant(Some(id)), size),
        |id: Seq<char>| sum_where(s.pending_files, pending_meant(Some(id)), waiting),
        |id: Seq<char>| s.size_of(Some(id)),
    );
    lemma_sum_over_agree(
        ids,
        |id: Seq<char>| sum_where(s.files, file_meant(Some(id)), stored),
        |id: Seq<char>| s.stored_of(Some(id)),
    );
    assert forall|t: Option<Seq<char>>| #[trigger] s.files_of(t).len() == sum_where(s.files, file_meant(t), one) by {
        lemma_filter_count(s.files, file_meant(t), one);
    }
    assert forall|t: Option<Seq<char>>| #[trigger] s.pending_of(t).len() == sum_where(s.pending_files, pending_meant(t), one_pending) by {
        lemma_filter_count(s.pending_files, pending_meant(t), one_pending);
    }
    lemma_sum_over_agree(
        ids,
        |id: Seq<char>| sum_where(s.files, file_meant(Some(id)), one),
        |id: Seq<char>| s.files_of(Some(id)).len(),
    );
    lemma_sum_over_agree(
        ids,
        |id: Seq<char>| sum_where(s.pending_files, pending_meant(Some(id)), one_pending),
        |id: Seq<char>| s.pending_of(Some(id)).len(),
    );
    let completed = |p: (Seq<char>, FileView)| if p.1.state == UploadState::Completed { 1nat } else { 0nat };
    lemma_sum_by_transfer(s.files, of_file, file_meant, completed, ids);
    assert forall|t: Option<Seq<char>>| #[trigger]
        s.completed_of(t).len() == sum_where(s.files, file_meant(t), completed) by {
        let done = |p: (Seq<char>, FileView)| meant(t, p.1.transfer_id) && p.1.state == UploadState::Completed;
        lemma_filter_count(s.files, done, one);
        lemma_sum_same(s.files, done, one, file_meant(t), completed);
    }
    lemma_sum_over_agree(
        ids,
        |id: Seq<char>| sum_where(s.files, file_meant(Some(id)), completed),
        |id: Seq<char>| s.completed_of(Some(id)).len(),
    );
}

/// Sums to which every item adds the same are the same.
proof fn lemma_sum_same<A>(
    s: Seq<A>,
    keep: spec_fn(A) -> bool,
    g: spec_fn(A) -> nat,
    keep2: spec_fn(A) -> bool,
    g2: spec_fn(A) -> nat,
)
    requires
        forall|x: A|
            #![trigger keep(x)]
            #![trigger keep2(x)]
            (if keep(x) { g(x) } else { 0 }) == (if keep2(x) { g2(x) } else { 0 }),
    ensures
        sum_where(s, keep, g) == sum_where(s, keep2, g2),
    decreases s.len(),
{
    if s.len() > 0 {
        lemma_sum_same(s.drop_last(), keep, g, keep2, g2);
        assert(keep(s.last()) || !keep(s.last()));
    }
}

/// Functions that agree have the same sum.
proof fn lemma_sum_over_agree(ids: Seq<Seq<char>>, f: spec_fn(Seq<char>) -> nat, g: spec_fn(Seq<char>) -> nat)
    requires
        forall|id: Seq<char>| #[trigger] f(id) == g(id),
    ensures
        sum_over(ids, f) == sum_over(ids, g),
    decreases ids.len(),
{
    if ids.len() > 0 {
        lemma_sum_over_agree(ids.drop_last(), f, g);
        assert(f(ids.last()) == g(ids.last()));
    }
}

/// A sum over the first items is at most the whole sum.
proof fn lemma_sum_take<A>(s: Seq<A>, keep: spec_fn(A) -> bool, g: spec_fn(A) -> nat, i: int)
    requires
        0 <= i <= s.len(),
    ensures
        sum_where(s.take(i), keep, g) <= sum_where(s, keep, g),
    decreases s.len(),
{
    if i < s.len() {
        lemma_sum_take(s.drop_last(), keep, g, i);
        assert(s.drop_last().take(i) =~= s.take(i));
    } else {
        assert(s.take(i) =~= s);
    }
}

/// One more item of a sum.
pub proof fn lemma_sum_step<A>(s: Seq<A>, keep: spec_fn(A) -> bool, g: spec_fn(A) -> nat, i: int)
    requires
        0 <= i < s.len(),
    ensures
        sum_where(s.take(i + 1), keep, g) == sum_where(s.take(i), keep, g) + (if keep(s[i]) {
            g(s[i])
        } else {
            0
        }),
        sum_where(s.take(i + 1), keep, g) <= sum_where(s, keep, g),
{
    assert(s.take(i + 1).drop_last() =~= s.take(i));
    lemma_sum_take(s, keep, g, i + 1);
}

/// One more item of a filtered sequence.
pub proof fn lemma_filter_step<A>(s: Seq<A>, keep: spec_fn(A) -> bool, i: int)
    requires
        0 <= i < s.len(),
    ensures
        s.take(i + 1).filter(keep) == (if keep(s[i]) {
            s.take(i).filter(keep).push(s[i])
        } else {
            s.take(i).filter(keep)
        }),
        s.take(i).filter(keep).len() <= i,
{
    broadcast use vstd::seq_lib::group_filter_ensures;

    assert(s.take(i + 1) =~= s.take(i).push(s[i]));
    s.take(i).lemma_filter_push(s[i], keep);
}

/// Of nothing, nothing is kept.
pub proof fn lemma_filter_none<A>(s: Seq<A>, keep: spec_fn(A) -> bool)
    ensures
        s.take(0).filter(keep) == Seq::<A>::empty(),
        s.take(s.len() as int) == s,
{
    reveal(Seq::filter);
    assert(s.take(0).filter(keep) =~= Seq::<A>::empty());
    assert(s.take(s.len() as int) =~= s);
}

pub fn is_meant(asked: Option<&str>, id: &String) -> (r: bool)
    ensures
        r == meant(str_opt(asked), id@),
{
    match asked {
        Some(a) => same_text(a, id.as_str()),
        None => true,
    }
}

fn report_file(e: &FileEntry) -> (r: FileProgress)
    ensures
        r@ == file_report(e@),
{
    FileProgress {
        file_key: Some(e.file_key.clone()),
        file_name: e.file_name.clone(),
        file_hash: e.file_hash.clone(),
        transfer_id: e.transfer_id.clone(),
        total_bytes: e.total_bytes,
        uploaded_bytes: e.uploaded_bytes,
        completed_parts: e.completed_parts,
        total_parts: e.total_parts,
        percentage: e.percentage(),
        state: e.state,
    }
}

pub(crate) fn report_pending(p: &PendingFileEntry) -> (r: FileProgress)
    ensures
        r@ == pending_report(p@),
{
    FileProgress {
        file_key: None,
        file_name: p.file_name.clone(),
        file_hash: p.file_hash.clone(),
        transfer_id: p.transfer_id.clone(),
        total_bytes: p.file_size,
        uploaded_bytes: 0,
        completed_parts: 0,
        total_parts: 0,
        percentage: Percentage::Zero,
        state: UploadState::NotStarted,
    }
}

impl Session {
    /// The reports on the files of a transfer, on one file, or on all files.
    pub fn get_progress(&self, transfer_id: Option<&str>, file_key: Option<&str>) -> (r: Vec<FileProgress>)
        requires
            self.wf(),
        ensures
            reports(r@) == self@.file_reports(str_opt(transfer_id), str_opt(file_key)),
    {
        let ghost t = str_opt(transfer_id);
        let ghost k = str_opt(file_key);
        let ghost keep = |p: (Seq<char>, FileView)| meant(t, p.1.transfer_id) && meant(k, p.1.file_key);
        let ghost report = |p: (Seq<char>, FileView)| file_report(p.1);
        let mut r: Vec<FileProgress> = Vec::new();
        proof {
            lemma_filter_none(self@.files, keep);
            assert(reports(r@) =~= self@.files.take(0).filter(keep).map_values(report));
        }
        let mut i: usize = 0;
        while i < self.files.len()
            invariant
                t == str_opt(transfer_id),
                k == str_opt(file_key),
                keep == (|p: (Seq<char>, FileView)| meant(t, p.1.transfer_id) && meant(k, p.1.file_key)),
                report == (|p: (Seq<char>, FileView)| file_report(p.1)),
                i <= self@.files.len(),
                reports(r@) == self@.files.take(i as int).filter(keep).map_values(report),
            decreases self@.files.len() - i,
        {
            let e = self.files.value_at(i);
            proof {
                lemma_filter_step(self@.files, keep, i as int);
            }
            if is_meant(transfer_id, &e.transfer_id) && is_meant(file_key, &e.file_key) {
                let ghost before = reports(r@);
                r.push(report_file(e));
                assert(reports(r@) =~= before.push(file_report(e@)));
                assert(reports(r@) =~= self@.files.take(i + 1).filter(keep).map_values(report));
            }
            i += 1;
        }
        let ghost registered = reports(r@);
        proof {
            lemma_filter_none(self@.files, keep);
        }
        if file_key.is_none() {
            let ghost wanted = SessionView::pending_meant(t);
            let ghost report = |p: (Seq<char>, PendingView)| pending_report(p.1);
            proof {
                lemma_filter_none(self@.pending_files, wanted);
                assert(reports(r@) =~= registered + self@.pending_files.take(0).filter(wanted).map_values(report));
            }
            let mut j: usize = 0;
            while j < self.pending_files.len()
                invariant
                    t == str_opt(transfer_id),
                    wanted == SessionView::pending_meant(t),
                    report == (|p: (Seq<char>, PendingView)| pending_report(p.1)),
                    j <= self@.pending_files.len(),
                    reports(r@) == registered + self@.pending_files.take(j as int).filter(wanted).map_values(report),
                decreases self@.pending_files.len() - j,
            {
                let p = self.pending_files.value_at(j);
                proof {
                    lemma_filter_step(self@.pending_files, wanted, j as int);
                }
                if is_meant(transfer_id, &p.transfer_id) {
                    let ghost before = reports(r@);
                    r.push(report_pending(p));
                    assert(reports(r@) =~= before.push(pending_report(p@)));
                    assert(reports(r@) =~= registered + self@.pending_files.take(j + 1).filter(wanted).map_values(report));
                }
                j += 1;
            }
            proof {
                lemma_filter_none(self@.pending_files, wanted);
            }
        }
        r
    }

    /// Bytes, stored bytes, number and number completed of the files of a transfer.
    fn tally_files(&self, transfer_id: Option<&str>) -> (r: (u64, u64, usize, usize))
        requires
            self@.size_of(str_opt(transfer_id)) <= u64::MAX,
            self@.stored_of(str_opt(transfer_id)) <= u64::MAX,
        ensures
            r.0 == sum_where(
                self@.files,
                SessionView::file_meant(str_opt(transfer_id)),
                |p: (Seq<char>, FileView)| p.1.total_bytes as nat,
            ),
            r.1 == self@.stored_of(str_opt(transfer_id)),
            r.2 == self@.files_of(str_opt(transfer_id)).len(),
            r.3 == self@.completed_of(str_opt(transfer_id)).len(),
    {
        let ghost t = str_opt(transfer_id);
        let ghost files = self@.files;
        let ghost wanted = SessionView::file_meant(t);
        let ghost done = |p: (Seq<char>, FileView)| meant(t, p.1.transfer_id) && p.1.state == UploadState::Completed;
        let ghost size = |p: (Seq<char>, FileView)| p.1.total_bytes as nat;
        let ghost stored = |p: (Seq<char>, FileView)| p.1.uploaded_bytes as nat;
        proof {
            lemma_filter_none(files, wanted);
            lemma_filter_none(files, done);
        }
        let mut bytes: u64 = 0;
        let mut uploaded: u64 = 0;
        let mut count: usize = 0;
        let mut completed: usize = 0;
        let mut i: usize = 0;
        while i < self.files.len()
            invariant
                t == str_opt(transfer_id),
                files == self@.files,
                wanted == SessionView::file_meant(t),
                done == (|p: (Seq<char>, FileView)| meant(t, p.1.transfer_id) && p.1.state == UploadState::Completed),
                size == (|p: (Seq<char>, FileView)| p.1.total_bytes as nat),
                stored == (|p: (Seq<char>, FileView)| p.1.uploaded_bytes as nat),
                sum_where(files, wanted, size) <= u64::MAX,
                sum_where(files, wanted, stored) <= u64::MAX,
                i <= files.len(),
                bytes == sum_where(files.take(i as int), wanted, size),
                uploaded == sum_where(files.take(i as int), wanted, stored),
                count == files.take(i as int).filter(wanted).len(),
                completed == files.take(i as int).filter(done).len(),
            decreases files.len() - i,
        {
            let e = self.files.value_at(i);
            proof {
                lemma_sum_step(files, wanted, size, i as int);
                lemma_sum_step(files, wanted, stored, i as int);
                lemma_filter_step(files, wanted, i as int);
                lemma_filter_step(files, done, i as int);
            }
            if is_meant(transfer_id, &e.transfer_id) {
                bytes = bytes + e.total_bytes;
                uploaded = uploaded + e.uploaded_bytes;
                count = count + 1;
                if e.state == UploadState::Completed {
                    completed = completed + 1;
                }
            }
            i += 1;
        }
        proof {
            lemma_filter_none(files, wanted);
        }
        (bytes, uploaded, count, completed)
    }

    /// Bytes and number of the pending files of a transfer.
    fn tally_pending(&self, transfer_id: Option<&str>) -> (r: (u64, usize))
        requires
            self@.size_of(str_opt(transfer_id)) <= u64::MAX,
        ensures
            r.0 == sum_where(
                self@.pending_files,
                SessionView::pending_meant(str_opt(transfer_id)),
                |p: (Seq<char>, PendingView)| p.1.file_size as nat,
            ),
            r.1 == self@.pending_of(str_opt(transfer_id)).len(),
    {
        let ghost t = str_opt(transfer_id);
        let ghost files = self@.pending_files;
        let ghost wanted = SessionView::pending_meant(t);
        let ghost size = |p: (Seq<char>, PendingView)| p.1.file_size as nat;
        proof {
            lemma_filter_none(files, wanted);
        }
        let mut bytes: u64 = 0;
        let mut count: usize = 0;
        let mut i: usize = 0;
        while i < self.pending_files.len()
            invariant
                t == str_opt(transfer_id),
                files == self@.pending_files,
                wanted == SessionView::pending_meant(t),
                size == (|p: (Seq<char>, PendingView)| p.1.file_size as nat),
                sum_where(files, wanted, size) <= u64::MAX,
                i <= files.len(),
                bytes == sum_where(files.take(i as int), wanted, size),
                count == files.take(i as int).filter(wanted).len(),
            decreases files.len() - i,
        {
            let p = self.pending_files.value_at(i);
            proof {
                lemma_sum_step(files, wanted, size, i as int);
                lemma_filter_step(files, wanted, i as int);
            }
            if is_meant(transfer_id, &p.transfer_id) {
                bytes = bytes + p.file_size;
                count = count + 1;
            }
            i += 1;
        }
        proof {
            lemma_filter_none(files, wanted);
        }
        (bytes, count)
    }

    /// The state of a transfer with `count` registered and `pending` pending files.
    fn state_for(&self, transfer_id: Option<&str>, count: usize, pending: usize) -> (r: GlobalUploaderState)
        requires
            count == self@.files_of(str_opt(transfer_id)).len(),
            pending == self@.pending_of(str_opt(transfer_id)).len(),
        ensures
            r == self@.state_of(str_opt(transfer_id)),
    {
        if count == 0 && pending == 0 {
            return GlobalUploaderState::NotStarted;
        }
        let ghost t = str_opt(transfer_id);
        let mut all_completed = true;
        let mut any_running = false;
        let mut any_failed = false;
        let mut all_resting = true;
        let mut any_paused = false;
        let mut i: usize = 0;
        while i < self.files.len()
            invariant
                t == str_opt(transfer_id),
                i <= self@.files.len(),
                all_completed == forall|j: int| 0 <= j < i && meant(t, (#[trigger] self@.files[j]).1.transfer_id) ==> self@.files[j].1.state == UploadState::Completed,
                any_running == exists|j: int| 0 <= j < i && meant(t, (#[trigger] self@.files[j]).1.transfer_id) && self@.files[j].1.state == UploadState::Running && !self@.files_needing_provision.contains(self@.files[j].1.file_hash),
                any_failed == exists|j: int| 0 <= j < i && meant(t, (#[trigger] self@.files[j]).1.transfer_id) && self@.files[j].1.state == UploadState::Failed,
                all_resting == forall|j: int| 0 <= j < i && meant(t, (#[trigger] self@.files[j]).1.transfer_id) ==> at_rest(self@.files[j].1.state),
                any_paused == exists|j: int| 0 <= j < i && meant(t, (#[trigger] self@.files[j]).1.transfer_id) && self@.files[j].1.state == UploadState::Paused,
            decreases self@.files.len() - i,
        {
            let e = self.files.value_at(i);
            assert(e@ == self@.files[i as int].1);
            if is_meant(transfer_id, &e.transfer_id) {
                all_completed = all_completed && e.state == UploadState::Completed;
                any_running = any_running || (e.state == UploadState::Running
                    && !self.files_needing_provision.contains(e.file_hash.as_str()));
                any_failed = any_failed || e.state == UploadState::Failed;
                all_resting = all_resting && matches!(
                    e.state,
                    UploadState::Paused | UploadState::Completed | UploadState::NotStarted
                        | UploadState::Initialized
                );
                any_paused = any_paused || e.state == UploadState::Paused;
            }
            i += 1;
        }
        if pending == 0 && all_completed {
            GlobalUploaderState::Completed
        } else if any_running {
            GlobalUploaderState::Running
        } else if any_failed {
            GlobalUploaderState::Failed
        } else if all_resting && any_paused {
            GlobalUploaderState::Paused
        } else {
            self.global_state
        }
    }

    /// Whether every file of the transfer is completed and none is pending.
    fn is_done(&self, tr: &TransferEntry) -> (r: bool)
        requires
            self.wf(),
        ensures
            r == self@.transfer_done(tr@),
    {
        let ghost keys = tr@.file_keys;
        let mut i: usize = 0;
        while i < tr.file_keys.len()
            invariant
                self.wf(),
                keys == tr@.file_keys,
                i <= keys.len(),
                forall|j: int| 0 <= j < i ==> self@.key_completed(#[trigger] keys[j]),
            decreases keys.len() - i,
        {
            assert(keys[i as int] == tr.file_keys@[i as int]@);
            match self.files.get(tr.file_keys[i].as_str()) {
                Some(e) => {
                    if e.state != UploadState::Completed {
                        return false;
                    }
                },
                None => {
                    return false;
                },
            }
            i += 1;
        }
        let mut j: usize = 0;
        while j < self.pending_files.len()
            invariant
                j <= self@.pending_files.len(),
                forall|k: int| 0 <= k < j ==> (#[trigger] self@.pending_files[k]).1.transfer_id != tr.transfer_id@,
            decreases self@.pending_files.len() - j,
        {
            if same_text(self.pending_files.value_at(j).transfer_id.as_str(), tr.transfer_id.as_str()) {
                assert(self@.pending_files[j as int].1.transfer_id == tr.transfer_id@);
                return false;
            }
            j += 1;
        }
        true
    }

    /// The number of transfers that are done.
    fn count_done(&self) -> (r: usize)
        requires
            self.wf(),
        ensures
            r == self@.transfers.filter(|p: (Seq<char>, TransferView)| self@.transfer_done(p.1)).len(),
    {
        let ghost transfers = self@.transfers;
        let ghost done = |p: (Seq<char>, TransferView)| self@.transfer_done(p.1);
        proof {
            lemma_filter_none(transfers, done);
        }
        let n: usize = transfers_len(&self.transfers);
        let mut count: usize = 0;
        let mut i: usize = 0;
        while i < n
            invariant
                self.wf(),
                transfers == self@.transfers,
                done == (|p: (Seq<char>, TransferView)| self@.transfer_done(p.1)),
                n == transfers.len(),
                i <= n,
                count == transfers.take(i as int).filter(done).len(),
            decreases n - i,
        {
            proof {
                lemma_filter_step(transfers, done, i as int);
            }
            if let Some(p) = transfers_at(&self.transfers, i) {
                if self.is_done(p.1) {
                    count = count + 1;
                }
            }
            i += 1;
        }
        proof {
            lemma_filter_none(transfers, done);
        }
        count
    }

    /// Whether every report on the session can be made.
    pub fn has_sound_sizes(&self) -> (r: bool)
        ensures
            r == self@.sound_sizes(),
    {
        let ghost files = self@.files;
        let ghost pending = self@.pending_files;
        let ghost all_files = SessionView::file_meant(None);
        let ghost all_pending = SessionView::pending_meant(None);
        let ghost size = |p: (Seq<char>, FileView)| p.1.total_bytes as nat;
        let ghost waiting = |p: (Seq<char>, PendingView)| p.1.file_size as nat;
        let mut bytes: u64 = 0;
        let mut i: usize = 0;
        while i < self.files.len()
            invariant
                files == self@.files,
                all_files == SessionView::file_meant(None),
                size == (|p: (Seq<char>, FileView)| p.1.total_bytes as nat),
                self@.size_of(None) >= sum_where(files, all_files, size),
                i <= files.len(),
                bytes == sum_where(files.take(i as int), all_files, size),
                forall|j: int| 0 <= j < i ==> (#[trigger] files[j]).1.uploaded_bytes <= files[j].1.total_bytes,
            decreases files.len() - i,
        {
            let e = self.files.value_at(i);
            proof {
                lemma_sum_step(files, all_files, size, i as int);
                assert(e@ == files[i as int].1);
            }
            if e.uploaded_bytes > e.total_bytes {
                return false;
            }
            match bytes.checked_add(e.total_bytes) {
                Some(b) => {
                    bytes = b;
                },
                None => {
                    return false;
                },
            }
            i += 1;
        }
        assert(files.take(files.len() as int) =~= files);
        let mut j: usize = 0;
        while j < self.pending_files.len()
            invariant
                files == self@.files,
                pending == self@.pending_files,
                all_files == SessionView::file_meant(None),
                all_pending == SessionView::pending_meant(None),
                size == (|p: (Seq<char>, FileView)| p.1.total_bytes as nat),
                waiting == (|p: (Seq<char>, PendingView)| p.1.file_size as nat),
                j <= pending.len(),
                bytes == sum_where(files, all_files, size) + sum_where(pending.take(j as int), all_pending, waiting),
            decreases pending.len() - j,
        {
            let p = self.pending_files.value_at(j);
            proof {
                lemma_sum_step(pending, all_pending, waiting, j as int);
            }
            match bytes.checked_add(p.file_size) {
                Some(b) => {
                    bytes = b;
                },
                None => {
                    return false;
                },
            }
            j += 1;
        }
        assert(pending.take(pending.len() as int) =~= pending);
        let n: u64 = self.files.len() as u64;
        let m: u64 = self.pending_files.len() as u64;
        n <= u32::MAX as u64 && m <= u32::MAX as u64 - n
    }

    /// The report on a transfer, or on the whole session.
    pub fn get_aggregate_progress(&self, transfer_id: Option<&str>) -> (r: AggregateProgress)
        requires
            self.wf(),
            self@.countable(str_opt(transfer_id)),
        ensures
            r == self@.aggregate(str_opt(transfer_id)),
    {
        let (file_bytes, stored, count, completed) = self.tally_files(transfer_id);
        let (pending_bytes, pending) = self.tally_pending(transfer_id);
        let total_size: u64 = file_bytes + pending_bytes;
        let total_files: u32 = low_bits(count as u64) + low_bits(pending as u64);
        let (total_transfers, completed_transfers) = if transfer_id.is_none() {
            (
                Some(low_bits(transfers_len(&self.transfers) as u64)),
                Some(low_bits(self.count_done() as u64)),
            )
        } else {
            (None, None)
        };
        let state = self.state_for(transfer_id, count, pending);
        let (percentage, uploaded_size) = if state == GlobalUploaderState::Completed {
            (Percentage::Full, total_size)
        } else {
            (Percentage::of(stored, total_size), stored)
        };
        AggregateProgress {
            percentage,
            total_size,
            uploaded_size,
            total_transfers,
            completed_transfers,
            total_files,
            completed_files: low_bits(completed as u64),
            state,
        }
    }
}

} // verus!
