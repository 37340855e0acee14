//! From a file of the session to the parts that are still to be uploaded.

use crate::arith::low32;
use crate::chunk::{stored_parts, ChunkUploadResult};
use crate::parts::{
    addressable, bytes_in, completed_bytes, has_position, part_position, parts_needed, total_parts,
};
use crate::session::{confirmed, etags, new_file, FileView, Session};
use crate::state::UploadState;
use crate::string_map::{holds, lemma_at, lemma_put, lookup, put, StringMap};
use std::collections::HashSet;
use vstd::prelude::*;
use vstd::string::*;

verus! {

/// What the start call returns for a new multipart upload.
#[derive(Debug)]
pub struct StartUploadResponse {
    pub key: String,
    pub upload_id: String,
    pub part_size: u64,
}

/// What becomes of a file that the caller hands over.
#[derive(Debug)]
pub enum StartDecision {
    /// It is stored already.
    Completed { file_key: String },
    /// Its upload goes on.
    Resume { file_key: String },
    /// The start call has to be made.
    StartNew,
}

/// What has become of a file that was handed over.
#[derive(Debug)]
pub enum StartResult {
    Completed(String),
    Resumed(String),
    Started(String),
}

impl StartResult {
    /// The key of the file.
    pub open spec fn key(self) -> Seq<char> {
        match self {
            StartResult::Completed(k) => k@,
            StartResult::Resumed(k) => k@,
            StartResult::Started(k) => k@,
        }
    }

    /// Whether there is something left to upload.
    pub fn should_upload(&self) -> (r: bool)
        ensures
            r == !(self is Completed),
    {
        match self {
            StartResult::Completed(_) => false,
            StartResult::Resumed(_) => true,
            StartResult::Started(_) => true,
        }
    }

    pub fn file_key(&self) -> (r: &str)
        ensures
            r@ == self.key(),
    {
        match self {
            StartResult::Completed(k) => k.as_str(),
            StartResult::Resumed(k) => k.as_str(),
            StartResult::Started(k) => k.as_str(),
        }
    }
}

/// A file whose upload can begin or go on.
#[derive(Debug)]
pub struct PreparedUpload {
    pub transfer_id: String,
    pub upload_id: String,
    pub part_size: u64,
    pub total_parts: u32,
    pub completed_etags: Vec<(u32, String)>,
    pub done_parts: HashSet<u32>,
    pub remaining_parts: Vec<u32>,
    pub committed_bytes: u64,
}

/// The numbers of the confirmed parts.
pub open spec fn done_numbers(e: Seq<(u32, Seq<char>)>) -> Set<u32> {
    Set::new(|p: u32| confirmed(e, p))
}

/// The numbers from 1 to `n` that are not in `done`, in ascending order.
pub open spec fn missing_numbers(n: nat, done: Set<u32>) -> Seq<u32>
    decreases n,
{
    if n == 0 {
        Seq::empty()
    } else if done.contains(n as u32) {
        missing_numbers((n - 1) as nat, done)
    } else {
        missing_numbers((n - 1) as nat, done).push(n as u32)
    }
}

/// `p` is what there is to upload of `f`, a file of `total_bytes` bytes.
pub open spec fn prepared(p: PreparedUpload, f: FileView, total_bytes: u64) -> bool {
    &&& p.transfer_id@ == f.transfer_id
    &&& f.upload_id == Some(p.upload_id@)
    &&& f.part_size == Some(p.part_size)
    &&& p.total_parts == low32(parts_needed(total_bytes as nat, p.part_size as nat))
    &&& etags(p.completed_etags@) == f.completed_chunk_etags
    &&& p.done_parts@ == done_numbers(f.completed_chunk_etags)
    &&& p.remaining_parts@ == missing_numbers(p.total_parts as nat, p.done_parts@)
    &&& p.committed_bytes == bytes_in(p.done_parts@, p.part_size as int, total_bytes as int)
}

/// The file can be cut into parts: it has no part size, or one that is not 0, and the
/// confirmed parts have positions.
pub open spec fn dividable(f: FileView) -> bool {
    match f.part_size {
        Some(size) => size > 0 && addressable(done_numbers(f.completed_chunk_etags), size),
        None => true,
    }
}

/// The parts that are missing are those from 1 to `n` that are not done, each once and
/// in ascending order.
pub proof fn lemma_missing_numbers(n: nat, done: Set<u32>)
    requires
        n <= u32::MAX,
    ensures
        forall|p: u32|
            #[trigger] missing_numbers(n, done).contains(p) <==> 1 <= p <= n && !done.contains(p),
        forall|i: int, j: int|
            0 <= i < j < missing_numbers(n, done).len() ==> missing_numbers(n, done)[i]
                < missing_numbers(n, done)[j],
    decreases n,
{
    if n > 0 {
        lemma_missing_numbers((n - 1) as nat, done);
        let before = missing_numbers((n - 1) as nat, done);
        let m = missing_numbers(n, done);
        assert forall|i: int| 0 <= i < before.len() implies before[i] < n by {
            assert(before.contains(before[i]));
        }
        assert forall|p: u32| m.contains(p) <==> 1 <= p <= n && !done.contains(p) by {
            if before.contains(p) {
                let i = choose|i: int| 0 <= i < before.len() && before[i] == p;
                assert(m[i] == p);
            }
            if p == n && !done.contains(p) {
                assert(m[before.len() as int] == p);
            }
            if m.contains(p) && p != n {
                let i = choose|i: int| 0 <= i < m.len() && m[i] == p;
                assert(before[i] == p);
            }
        }
    }
}

/// Decides what becomes of the file with this hash.
pub fn start_decision(session: &Session, file_hash: &str) -> (r: StartDecision)
    requires
        session.wf(),
    ensures
        match r {
            StartDecision::Completed { file_key } => session@.by_hash(file_hash@) matches Some(f)
                && f.state == UploadState::Completed && file_key@ == f.file_key,
            StartDecision::Resume { file_key } => session@.by_hash(file_hash@) matches Some(f)
                && f.resumable() && file_key@ == f.file_key,
            StartDecision::StartNew => session@.by_hash(file_hash@) matches Some(f) ==> f.state
                != UploadState::Completed && !f.resumable(),
        },
{
    match session.find_by_hash(file_hash) {
        Some(entry) => {
            if entry.state == UploadState::Completed {
                StartDecision::Completed { file_key: entry.file_key.clone() }
            } else if entry.is_resumable() {
                StartDecision::Resume { file_key: entry.file_key.clone() }
            } else {
                StartDecision::StartNew
            }
        },
        None => StartDecision::StartNew,
    }
}

/// Registers a file for which the start call was made. Returns its key.
pub fn register_started_upload(
    session: &mut Session,
    file_hash: String,
    transfer_id: &str,
    file_path: String,
    file_name: String,
    file_size: u64,
    user_params: StringMap<String>,
    start_resp: StartUploadResponse,
) -> (r: String)
    requires
        old(session).wf(),
        start_resp.part_size > 0,
    ensures
        final(session).wf(),
        r@ == start_resp.key@,
        final(session)@ == old(session)@.with_new_file(
            FileView {
                upload_id: Some(start_resp.upload_id@),
                part_size: Some(start_resp.part_size),
                total_parts: low32(parts_needed(file_size as nat, start_resp.part_size as nat)),
                ..new_file(
                    start_resp.key@,
                    file_hash@,
                    transfer_id@,
                    file_path@,
                    file_name@,
                    file_size,
                    user_params@,
                )
            },
        ),
{
    let file_key = start_resp.key.clone();
    let parts: u32 = total_parts(file_size, start_resp.part_size);
    let ghost before = session@.files;
    let ghost f = new_file(
        file_key@,
        file_hash@,
        transfer_id@,
        file_path@,
        file_name@,
        file_size,
        user_params@,
    );
    session.register_file(
        file_key.clone(),
        file_hash,
        transfer_id.to_string(),
        file_path,
        file_name,
        file_size,
        user_params,
    );
    proof {
        let g = FileView {
            upload_id: Some(start_resp.upload_id@),
            part_size: Some(start_resp.part_size),
            total_parts: parts,
            ..f
        };
        lemma_put(before, file_key@, f, file_key@);
        lemma_put_twice(before, file_key@, f, g);
    }
    session.set_upload_info(
        file_key.as_str(),
        start_resp.upload_id,
        start_resp.part_size,
        parts,
    );
    file_key
}

/// Putting twice under one key keeps the second value.
proof fn lemma_put_twice(
    m: Seq<(Seq<char>, FileView)>,
    k: Seq<char>,
    f: FileView,
    g: FileView,
)
    requires
        crate::string_map::unique(m),
    ensures
        put(put(m, k, f), k, g) == put(m, k, g),
{
    let p = put(m, k, f);
    lemma_put(m, k, f, k);
    let spot = if holds(m, k) {
        crate::string_map::at(m, k)
    } else {
        m.len() as int
    };
    assert(p[spot].0 == k);
    lemma_at(p, spot);
    assert(put(p, k, g) =~= put(m, k, g));
}

fn with_key(text: &str, file_key: &str) -> (r: String)
    ensures
        r@ == text@ + file_key@,
{
    let mut s = text.to_string();
    s.append(file_key);
    s
}

/// The numbers of the confirmed parts.
fn numbers_of(completed: &Vec<(u32, String)>) -> (r: HashSet<u32>)
    ensures
        r@ == done_numbers(etags(completed@)),
{
    broadcast use vstd::std_specs::hash::group_hash_axioms;

    let ghost all = etags(completed@);
    let mut r: HashSet<u32> = HashSet::new();
    assert(r@ =~= done_numbers(all.take(0)));
    let mut i: usize = 0;
    while i < completed.len()
        invariant
            i <= completed@.len(),
            all == etags(completed@),
            r@ == done_numbers(all.take(i as int)),
        decreases completed@.len() - i,
    {
        let ghost before = r@;
        let ghost done = all.take(i as int);
        let ghost next = all.take(i + 1);
        r.insert(completed[i].0);
        proof {
            assert(next =~= done.push(all[i as int]));
            assert forall|p: u32| r@.contains(p) == done_numbers(next).contains(p) by {
                if before.contains(p) {
                    let j = choose|j: int| 0 <= j < done.len() && (#[trigger] done[j]).0 == p;
                    assert(next[j].0 == p);
                }
                assert(next[i as int].0 == completed@[i as int].0);
                if done_numbers(next).contains(p) {
                    let j = choose|j: int| 0 <= j < next.len() && (#[trigger] next[j]).0 == p;
                    if j < i {
                        assert(done[j].0 == p);
                    }
                }
            }
            assert(r@ =~= done_numbers(next));
        }
        i += 1;
    }
    assert(all.take(all.len() as int) =~= all);
    r
}

/// The numbers from 1 to `total` that are not done.
fn remaining(total: u32, done: &HashSet<u32>) -> (r: Vec<u32>)
    ensures
        r@ == missing_numbers(total as nat, done@),
{
    broadcast use vstd::std_specs::hash::group_hash_axioms;

    let mut r: Vec<u32> = Vec::new();
    let mut n: u32 = 0;
    while n < total
        invariant
            n <= total,
            r@ == missing_numbers(n as nat, done@),
        decreases total - n,
    {
        n = n + 1;
        if !done.contains(&n) {
            r.push(n);
        }
    }
    r
}

pub fn clone_etags(v: &Vec<(u32, String)>) -> (r: Vec<(u32, String)>)
    ensures
        etags(r@) == etags(v@),
{
    let mut r: Vec<(u32, String)> = Vec::new();
    let mut i: usize = 0;
    while i < v.len()
        invariant
            i <= v@.len(),
            etags(r@) =~= etags(v@).take(i as int),
        decreases v@.len() - i,
    {
        let ghost before = etags(r@);
        r.push((v[i].0, v[i].1.clone()));
        assert(etags(r@) =~= before.push((v@[i as int].0, v@[i as int].1@)));
        i += 1;
    }
    assert(etags(r@) =~= etags(v@));
    r
}

/// Whether a file of the session, if it is one, can be cut into parts.
pub fn is_dividable(session: &Session, file_key: &str) -> (r: bool)
    requires
        session.wf(),
    ensures
        r == (lookup(session@.files, file_key@) matches Some(f) ==> dividable(f)),
{
    let entry = match session.files.get(file_key) {
        Some(e) => e,
        None => {
            return true;
        },
    };
    let size: u64 = match entry.part_size {
        Some(size) => size,
        None => {
            return true;
        },
    };
    if size == 0 {
        return false;
    }
    let ghost all = entry@.completed_chunk_etags;
    let mut i: usize = 0;
    while i < entry.completed_chunk_etags.len()
        invariant
            lookup(session@.files, file_key@) == Some(entry@),
            entry.part_size == Some(size),
            all == entry@.completed_chunk_etags,
            i <= all.len(),
            forall|j: int| 0 <= j < i ==> has_position((#[trigger] all[j]).0, size),
        decreases all.len() - i,
    {
        let p: u32 = entry.completed_chunk_etags[i].0;
        assert(all[i as int].0 == p);
        assert(done_numbers(all).contains(p));
        if part_position(p, size).is_none() {
            return false;
        }
        i += 1;
    }
    assert forall|p: u32| #[trigger] done_numbers(all).contains(p) implies has_position(p, size) by {
        let j = choose|j: int| 0 <= j < all.len() && (#[trigger] all[j]).0 == p;
        assert(all[j].0 == p);
    }
    true
}

/// Works out what there is to upload of a file of `total_bytes` bytes.
pub fn prepare_upload(session: &Session, file_key: &str, total_bytes: u64) -> (r: Result<PreparedUpload, String>)
    requires
        session.wf(),
        lookup(session@.files, file_key@) matches Some(f) ==> f.upload_id is Some ==> dividable(f),
    ensures
        match lookup(session@.files, file_key@) {
            None => r matches Err(e) && e@ == "File entry not found for "@ + file_key@,
            Some(f) => if f.upload_id is None {
                r matches Err(e) && e@ == "Missing upload_id for "@ + file_key@
            } else if f.part_size is None {
                r matches Err(e) && e@ == "Missing part_size for "@ + file_key@
            } else {
                r matches Ok(p) && prepared(p, f, total_bytes)
            },
        },
{
    let entry = match session.files.get(file_key) {
        Some(e) => e,
        None => {
            return Err(with_key("File entry not found for ", file_key));
        },
    };
    let upload_id = match &entry.upload_id {
        Some(id) => id.clone(),
        None => {
            return Err(with_key("Missing upload_id for ", file_key));
        },
    };
    let part_size: u64 = match entry.part_size {
        Some(size) => size,
        None => {
            return Err(with_key("Missing part_size for ", file_key));
        },
    };
    let parts: u32 = total_parts(total_bytes, part_size);
    let done_parts = numbers_of(&entry.completed_chunk_etags);
    let remaining_parts = remaining(parts, &done_parts);
    let committed_bytes: u64 = completed_bytes(&done_parts, part_size, total_bytes);
    Ok(
        PreparedUpload {
            transfer_id: entry.transfer_id.clone(),
            upload_id,
            part_size,
            total_parts: parts,
            completed_etags: clone_etags(&entry.completed_chunk_etags),
            done_parts,
            remaining_parts,
            committed_bytes,
        },
    )
}

/// The parts that were stored before, followed by the new ones.
pub fn combine_upload_results(
    completed_etags: Vec<(u32, String)>,
    new_results: Vec<ChunkUploadResult>,
) -> (r: Vec<ChunkUploadResult>)
    ensures
        stored_parts(r@) == etags(completed_etags@) + stored_parts(new_results@),
{
    let ghost old_parts = etags(completed_etags@);
    let ghost new_parts = stored_parts(new_results@);
    let mut r: Vec<ChunkUploadResult> = Vec::new();
    let mut i: usize = 0;
    while i < completed_etags.len()
        invariant
            i <= completed_etags@.len(),
            old_parts == etags(completed_etags@),
            stored_parts(r@) =~= old_parts.take(i as int),
        decreases completed_etags@.len() - i,
    {
        let ghost before = stored_parts(r@);
        r.push(ChunkUploadResult { part_number: completed_etags[i].0, etag: completed_etags[i].1.clone() });
        assert(stored_parts(r@) =~= before.push(old_parts[i as int]));
        i += 1;
    }
    let mut j: usize = 0;
    while j < new_results.len()
        invariant
            j <= new_results@.len(),
            new_parts == stored_parts(new_results@),
            stored_parts(r@) =~= old_parts + new_parts.take(j as int),
        decreases new_results@.len() - j,
    {
        let ghost before = stored_parts(r@);
        r.push(ChunkUploadResult { part_number: new_results[j].part_number, etag: new_results[j].etag.clone() });
        assert(stored_parts(r@) =~= before.push(new_parts[j as int]));
        j += 1;
    }
    assert(stored_parts(r@) =~= old_parts + new_parts);
    r
}

} // verus!
