//! What holds of an upload: which parts it is made of, what a resumed run skips, and how a
//! run goes through its parts.

use crate::async_engine::AsyncView;
use crate::attempt::held_back;
use crate::chunk::{close_end, numbers, open_end, stored_parts, unquoted, ChunkUploadResult};
use crate::engine::{batch_parts, batches, benign, BlockingView};
use crate::ledger::{incomplete, LedgerView};
use crate::parts::{bytes_in, has_position, parts_needed};
use crate::retry::{exhausted, quoted, retried};
use crate::session::{confirmed, etags, lemma_with_files_lookup, FileView, SessionView};
use crate::session_laws::law_one_file_changes;
use crate::state::UploadState;
use crate::store::all_restarted;
use crate::string_map::{holds, lookup, unique};
use crate::text::{decimal, occurs_in};
use crate::upload::{
    dividable, done_numbers, lemma_missing_numbers, prepared, PreparedUpload, StartResult,
};
use crate::upload_orchestrator::{committed, left_over, was_reset, with_stored};
use crate::MAX_CONCURRENT_UPLOADS;
use vstd::prelude::*;

verus! {

/// A part is done exactly where an ETag is noted for it.
pub proof fn law_done_parts(e: Seq<(u32, Seq<char>)>, p: u32)
    ensures
        done_numbers(e).contains(p) <==> exists|i: int| 0 <= i < e.len() && (#[trigger] e[i]).0 == p,
        confirmed(e, p) <==> exists|i: int| 0 <= i < e.len() && (#[trigger] e[i]).0 == p,
{
}

/// A prepared upload is that of the file: its transfer, upload id and part size, its
/// confirmed parts with their ETags, and the bytes these hold. What remains is each part of
/// the file that is not confirmed, once and in ascending order.
pub proof fn law_prepared_is_of_the_file(u: PreparedUpload, f: FileView, total_bytes: u64, p: u32)
    requires
        prepared(u, f, total_bytes),
    ensures
        u.transfer_id@ == f.transfer_id,
        f.upload_id == Some(u.upload_id@),
        f.part_size == Some(u.part_size),
        parts_needed(total_bytes as nat, u.part_size as nat) <= u32::MAX ==> u.total_parts == parts_needed(
            total_bytes as nat,
            u.part_size as nat,
        ),
        u.completed_etags@.len() == f.completed_chunk_etags.len(),
        forall|i: int|
            0 <= i < f.completed_chunk_etags.len() ==> (#[trigger] f.completed_chunk_etags[i]) == (
                u.completed_etags@[i].0,
                u.completed_etags@[i].1@,
            ),
        u.done_parts@.contains(p) <==> exists|i: int|
            0 <= i < f.completed_chunk_etags.len() && (#[trigger] f.completed_chunk_etags[i]).0 == p,
        u.remaining_parts@.contains(p) <==> 1 <= p <= u.total_parts && !u.done_parts@.contains(p),
        forall|i: int, j: int| 0 <= i < j < u.remaining_parts@.len() ==> u.remaining_parts@[i] < u.remaining_parts@[j],
        u.committed_bytes == bytes_in(u.done_parts@, u.part_size as int, total_bytes as int),
{
    lemma_missing_numbers(u.total_parts as nat, u.done_parts@);
    crate::report_laws::law_low_bits(parts_needed(total_bytes as nat, u.part_size as nat));
    assert(etags(u.completed_etags@).len() == u.completed_etags@.len());
    assert forall|i: int| 0 <= i < f.completed_chunk_etags.len() implies (#[trigger] f.completed_chunk_etags[i]) == (
        u.completed_etags@[i].0,
        u.completed_etags@[i].1@,
    ) by {
        assert(etags(u.completed_etags@)[i] == (u.completed_etags@[i].0, u.completed_etags@[i].1@));
    }
}

/// Once a part is confirmed, no run uploads it again: not after a pause, not after a resume,
/// not after the session was loaded anew. Its ETag is there to complete the upload with.
pub proof fn law_confirmed_is_never_uploaded_again(
    s: SessionView,
    key: Seq<char>,
    i: int,
    u: PreparedUpload,
    total_bytes: u64,
)
    requires
        s.sound(),
        lookup(s.files, key) matches Some(f) && 0 <= i < f.completed_chunk_etags.len(),
        ({
            let now = |t: SessionView| lookup(t.files, key) matches Some(g) && prepared(u, g, total_bytes);
            now(s) || now(s.paused()) || now(s.loaded()) || now(all_restarted(s)) || now(all_restarted(s.paused())) || now(
                all_restarted(s.loaded()),
            )
        }),
    ensures
        ({
            let e = (lookup(s.files, key)->0).completed_chunk_etags[i];
            &&& !u.remaining_parts@.contains(e.0)
            &&& u.done_parts@.contains(e.0)
            &&& etags(u.completed_etags@).contains(e)
        }),
{
    let f = lookup(s.files, key)->0;
    let e = f.completed_chunk_etags[i];
    lemma_kept(s, key);
    lemma_kept(s.paused(), key);
    lemma_kept(s.loaded(), key);
    let now = |t: SessionView| lookup(t.files, key) matches Some(g) && prepared(u, g, total_bytes);
    let t = if now(s) {
        s
    } else if now(s.paused()) {
        s.paused()
    } else if now(s.loaded()) {
        s.loaded()
    } else if now(all_restarted(s)) {
        all_restarted(s)
    } else if now(all_restarted(s.paused())) {
        all_restarted(s.paused())
    } else {
        all_restarted(s.loaded())
    };
    let g = lookup(t.files, key)->0;
    assert(prepared(u, g, total_bytes));
    assert(g.completed_chunk_etags == f.completed_chunk_etags);
    law_prepared_is_of_the_file(u, g, total_bytes, e.0);
    assert(f.completed_chunk_etags[i].0 == e.0);
    assert(etags(u.completed_etags@)[i] == e);
}

/// Pausing, loading and resuming keep what is confirmed of a file.
proof fn lemma_kept(s: SessionView, key: Seq<char>)
    requires
        unique(s.files),
        holds(s.files, key),
    ensures
        unique(s.paused().files),
        unique(s.loaded().files),
        lookup(s.paused().files, key) matches Some(g) && g.completed_chunk_etags == (lookup(
            s.files,
            key,
        )->0).completed_chunk_etags,
        lookup(s.loaded().files, key) matches Some(g) && g.completed_chunk_etags == (lookup(
            s.files,
            key,
        )->0).completed_chunk_etags,
        lookup(all_restarted(s).files, key) matches Some(g) && g.completed_chunk_etags == (lookup(
            s.files,
            key,
        )->0).completed_chunk_etags,
{
    lemma_with_files_lookup(s, |f: FileView| crate::session::stopped(f), key);
    lemma_with_files_lookup(s, |f: FileView| crate::store::restarted(f), key);
}

/// Noting the stored bytes changes that count of the file alone, to no more than its size.
pub proof fn law_stored_bytes_noted(s: SessionView, key: Seq<char>, bytes: u64)
    requires
        s.sound(),
    ensures
        ({
            let after = with_stored(s, key, bytes);
            &&& after == (SessionView { files: after.files, ..s })
            &&& after.files.len() == s.files.len()
            &&& forall|i: int|
                0 <= i < s.files.len() ==> {
                    let f = s.files[i].1;
                    (#[trigger] after.files[i]) == (
                        s.files[i].0,
                        if s.files[i].0 != key {
                            f
                        } else if bytes <= f.total_bytes {
                            FileView { uploaded_bytes: bytes, ..f }
                        } else {
                            FileView { uploaded_bytes: f.total_bytes, ..f }
                        },
                    )
                }
        }),
{
    law_one_file_changes(
        s,
        key,
        |f: FileView|
            FileView {
                uploaded_bytes: if bytes <= f.total_bytes {
                    bytes
                } else {
                    f.total_bytes
                },
                ..f
            },
    );
}

/// What is committed of a file are the bytes of its confirmed parts; what is left over is
/// each of its parts that is not confirmed, in ascending order.
pub proof fn law_committed_and_left(f: FileView, size: u64, part_size: u64, p: u32)
    requires
        f.part_size == Some(part_size),
        part_size > 0,
        parts_needed(size as nat, part_size as nat) <= u32::MAX,
    ensures
        committed(f, size) == bytes_in(done_numbers(f.completed_chunk_etags), part_size as int, size as int),
        left_over(f, size).contains(p) <==> 1 <= p <= parts_needed(size as nat, part_size as nat) && forall|i: int|
            0 <= i < f.completed_chunk_etags.len() ==> (#[trigger] f.completed_chunk_etags[i]).0 != p,
        forall|i: int, j: int| 0 <= i < j < left_over(f, size).len() ==> left_over(f, size)[i] < left_over(f, size)[j],
{
    let n = parts_needed(size as nat, part_size as nat);
    crate::report_laws::law_low_bits(n);
    crate::parts::lemma_bytes_bounded(
        done_numbers(f.completed_chunk_etags),
        part_size as int,
        size as int,
        u32::MAX as nat,
    );
    lemma_missing_numbers(n, done_numbers(f.completed_chunk_etags));
    law_done_parts(f.completed_chunk_etags, p);
}

/// A file was reset where it is there and has not started. It can be cut into parts where
/// it has no part size, or one above 0 and a position for each confirmed part.
pub proof fn law_reset_and_dividable(s: SessionView, key: Seq<char>, f: FileView)
    ensures
        was_reset(s, key) <==> (lookup(s.files, key) matches Some(g) && g.state == UploadState::NotStarted),
        f.part_size is None ==> dividable(f),
        f.part_size matches Some(size) ==> (dividable(f) <==> size > 0 && forall|i: int|
            0 <= i < f.completed_chunk_etags.len() ==> has_position((#[trigger] f.completed_chunk_etags[i]).0, size)),
{
    if f.part_size is Some {
        let size = f.part_size->0;
        let e = f.completed_chunk_etags;
        if dividable(f) {
            assert forall|i: int| 0 <= i < e.len() implies has_position((#[trigger] e[i]).0, size) by {
                assert(done_numbers(e).contains(e[i].0));
            }
        }
        if forall|i: int| 0 <= i < e.len() ==> has_position((#[trigger] e[i]).0, size) {
            assert forall|p: u32| #[trigger] done_numbers(e).contains(p) implies has_position(p, size) by {
                let i = choose|i: int| 0 <= i < e.len() && (#[trigger] e[i]).0 == p;
                assert(has_position(e[i].0, size));
            }
        }
    }
}

/// The result of a start names the key it was made with.
pub proof fn law_start_result_key(k: String)
    ensures
        StartResult::Completed(k).key() == k@,
        StartResult::Resumed(k).key() == k@,
        StartResult::Started(k).key() == k@,
{
}

/// Rows of parts are taken over one for one: number, ETag and order.
pub proof fn law_rows_of_parts(
    v: Seq<ChunkUploadResult>,
    w: Seq<(u32, String)>,
    e: Seq<(u32, Seq<char>)>,
    b: Seq<Vec<u32>>,
    i: int,
)
    ensures
        stored_parts(v).len() == v.len(),
        0 <= i < v.len() ==> stored_parts(v)[i] == (v[i].part_number, v[i].etag@),
        etags(w).len() == w.len(),
        0 <= i < w.len() ==> etags(w)[i] == (w[i].0, w[i].1@),
        numbers(e).len() == e.len(),
        0 <= i < e.len() ==> numbers(e)[i] == e[i].0,
        batch_parts(b).len() == b.len(),
        0 <= i < b.len() ==> batch_parts(b)[i] == b[i]@,
{
}

/// A run begins with nothing handed out and nothing stored. A part that is handed out is out
/// until it is stored; what is stored is told under its number and with its ETag.
pub proof fn law_ledger(parts: Seq<u32>, v: LedgerView, i: int, j: int, etag: Seq<char>)
    ensures
        LedgerView::fresh(parts).parts == parts,
        LedgerView::fresh(parts).next == 0,
        LedgerView::fresh(parts).stored.len() == 0,
        !LedgerView::fresh(parts).is_out(i),
        v.is_out(i) <==> 0 <= i < v.next && forall|n: int|
            0 <= n < v.stored.len() ==> (#[trigger] v.stored[n]).0 != i,
        v.advanced() == (LedgerView { next: v.next + 1, ..v }),
        v.with_stored(i, etag).parts == v.parts && v.with_stored(i, etag).next == v.next,
        !v.with_stored(i, etag).is_out(i),
        j != i ==> v.with_stored(i, etag).is_out(j) == v.is_out(j),
        v.results().len() == v.stored.len(),
        0 <= j < v.stored.len() ==> v.results()[j] == (v.parts[v.stored[j].0], v.stored[j].1),
        v.with_stored(i, etag).results() == v.results().push((v.parts[i], etag)),
{
    let w = v.with_stored(i, etag);
    assert(w.stored[v.stored.len() as int] == (i, etag));
    assert forall|n: int| 0 <= n < v.stored.len() implies #[trigger] w.stored[n] == v.stored[n] by {}
    if v.has(j) {
        let n = choose|n: int| 0 <= n < v.stored.len() && (#[trigger] v.stored[n]).0 == j;
        assert(w.stored[n].0 == j);
    }
    if w.has(j) && j != i {
        let n = choose|n: int| 0 <= n < w.stored.len() && (#[trigger] w.stored[n]).0 == j;
        assert(v.stored[n].0 == j);
    }
    if !v.has(i) {
        assert forall|n: int| 0 <= n < v.stored.len() implies (#[trigger] v.stored[n]).0 != i by {}
    }
    assert(w.results() =~= v.results().push((v.parts[i], etag)));
}

/// Every batch stands where it belongs: what is in it are parts of the run, from its place
/// on. Together with the law that every part is in a batch, nothing is left out or repeated.
pub proof fn law_batches_hold_parts(parts: Seq<u32>, b: int, j: int)
    requires
        0 <= b < batches(parts).len(),
        0 <= j < batches(parts)[b].len(),
    ensures
        0 <= b * MAX_CONCURRENT_UPLOADS + j < parts.len(),
        batches(parts)[b][j] == parts[b * MAX_CONCURRENT_UPLOADS + j],
{
}

/// The next batch of an asynchronous run begins with the part that is handed out next and
/// holds as many as may be in flight, or as many as are left.
pub proof fn law_next_batch(v: AsyncView, i: int)
    requires
        0 <= v.ledger.next <= v.ledger.parts.len(),
    ensures
        v.has_next() <==> v.ledger.next < v.ledger.parts.len(),
        v.has_next() ==> v.next_part() == v.ledger.parts[v.ledger.next] && v.next_batch()[0] == v.next_part(),
        v.next_batch().len() <= MAX_CONCURRENT_UPLOADS,
        v.next_batch().len() <= v.ledger.parts.len() - v.ledger.next,
        v.next_batch().len() == MAX_CONCURRENT_UPLOADS || v.next_batch().len() == v.ledger.parts.len() - v.ledger.next,
        0 <= i < v.next_batch().len() ==> v.next_batch()[i] == v.ledger.parts[v.ledger.next + i],
{
}

/// When a blocking run stops handing out parts, when it ends as paused, and when the part at
/// an index is uploaded.
pub proof fn law_blocking_run(v: BlockingView, i: int, paused: bool, current: bool)
    ensures
        v.part(i) == v.ledger.parts[i],
        v.stopped(paused, current) <==> paused || !current || v.abort,
        v.ends_paused(paused, current) <==> paused || !current || (v.abort && !v.error_abort),
        v.uploads(i, paused, current) <==> !paused && current && v.urls.contains_key(v.ledger.parts[i]),
        v.ends_paused(paused, current) ==> v.stopped(paused, current),
{
}

/// The errors that tell of a pause or of a superseded run; why nothing is sent.
pub proof fn law_held_back(error: Seq<char>, paused: bool, current: bool)
    ensures
        benign(error) <==> occurs_in(error, "paused"@) || occurs_in(error, "Interrupted"@) || occurs_in(
            error,
            "stale run"@,
        ),
        paused ==> held_back(paused, current) == Some("paused"@),
        !paused && !current ==> held_back(paused, current) == Some("stale run"@),
        held_back(paused, current) is None <==> !paused && current,
{
}

/// An attempt that was retried has failed, and the caller was told of that attempt, of its
/// error and of the pause that follows: a second after the first attempt, and twice as long
/// after each one more.
pub proof fn law_retry_is_told<T, F: Fn(usize) -> Result<T, String>, R: Fn(usize, &str, u32)>(
    op: F,
    on_retry: R,
    n: usize,
)
    requires
        n >= 1,
        retried(op, on_retry, n),
    ensures
        exists|e: String, s: &str, d: u32|
            #![trigger call_ensures(op, (n,), Err::<T, String>(e)), call_ensures(on_retry, (n, s, d), ())]
            call_ensures(op, (n,), Err::<T, String>(e)) && s@ == e@ && d == 1000 * vstd::arithmetic::power2::pow2(
                (n - 1) as nat,
            ) && call_ensures(on_retry, (n, s, d), ()),
{
    let (e, s, d) = choose|e: String, s: &str, d: u32|
        #![trigger call_ensures(op, (n,), Err::<T, String>(e)), call_ensures(on_retry, (n, s, d), ())]
        call_ensures(op, (n,), Err::<T, String>(e)) && s@ == e@ && d == crate::retry::backoff_ms(n as int)
            && call_ensures(on_retry, (n, s, d), ());
    assert(d == 1000 * vstd::arithmetic::power2::pow2((n - 1) as nat));
}

/// What is told where parts are missing, and where no attempt is left.
pub proof fn law_failures_are_told(stored: nat, wanted: nat, tries: nat, e: Seq<char>)
    ensures
        incomplete(stored, wanted) == "Only "@ + decimal(stored) + "/"@ + decimal(wanted)
            + " parts uploaded successfully"@,
        exhausted(tries, Some(e)) == "Failed after "@ + decimal(tries) + " retries: "@ + ("Some("@ + quoted(e) + ")"@),
        exhausted(tries, None) == "Failed after "@ + decimal(tries) + " retries: "@ + "None"@,
{
}

/// Cleaning an ETag takes off the quotation marks at both ends and nothing else.
pub proof fn law_etag_cleaned(s: Seq<char>)
    ensures
        ({
            let r = unquoted(s);
            &&& r.len() > 0 ==> r[0] != '"' && r.last() != '"'
            &&& exists|a: int, b: int|
                {
                    &&& 0 <= a <= b <= s.len()
                    &&& r == #[trigger] s.subrange(a, b)
                    &&& forall|i: int| 0 <= i < a || b <= i < s.len() ==> (#[trigger] s[i]) == '"'
                }
        }),
{
    let a = lemma_open_end(s);
    let o = open_end(s);
    let b = lemma_close_end(o);
    let r = unquoted(s);
    assert(r =~= s.subrange(a, a + b));
    assert forall|i: int| 0 <= i < a || a + b <= i < s.len() implies (#[trigger] s[i]) == '"' by {
        if i >= a {
            assert(o[i - a] == s[i]);
        }
    }
    if r.len() > 0 {
        assert(r[0] == o[0]);
    }
}

proof fn lemma_open_end(s: Seq<char>) -> (a: int)
    ensures
        0 <= a <= s.len(),
        open_end(s) == s.skip(a),
        forall|i: int| 0 <= i < a ==> (#[trigger] s[i]) == '"',
        a < s.len() ==> s[a] != '"',
    decreases s.len(),
{
    if s.len() > 0 && s[0] == '"' {
        let rest = s.skip(1);
        let b = lemma_open_end(rest);
        assert(rest.skip(b) =~= s.skip(b + 1));
        assert forall|i: int| 0 <= i < b + 1 implies (#[trigger] s[i]) == '"' by {
            if i > 0 {
                assert(rest[i - 1] == s[i]);
            }
        }
        b + 1
    } else {
        assert(s.skip(0) =~= s);
        0
    }
}

proof fn lemma_close_end(s: Seq<char>) -> (b: int)
    ensures
        0 <= b <= s.len(),
        close_end(s) == s.take(b),
        forall|i: int| b <= i < s.len() ==> (#[trigger] s[i]) == '"',
        b > 0 ==> s[b - 1] != '"',
    decreases s.len(),
{
    if s.len() > 0 && s.last() == '"' {
        let front = s.drop_last();
        let b = lemma_close_end(front);
        assert(front.take(b) =~= s.take(b));
        assert forall|i: int| b <= i < s.len() implies (#[trigger] s[i]) == '"' by {
            if i < s.len() - 1 {
                assert(front[i] == s[i]);
            }
        }
        b
    } else {
        assert(s.take(s.len() as int) =~= s);
        s.len() as int
    }
}

} // verus!
