//! The upload session: which files are known, to which transfer they belong and
//! how far each of them has come.

use crate::state::{percentage_of, GlobalUploaderState, Percentage, UploadState};
use crate::string_map::{
    at, holds, lemma_at, lemma_filter_agree, lemma_filter_twice, lemma_filter_unique, lemma_put,
    lemma_without, lemma_without_filter, lookup, put, unique, without, StringMap, StringSet,
};
use crate::text::same_text;
use crate::transfers::{
    registered, texts, transfers_at, transfers_at_mut, transfers_clear, transfers_get, transfers_get_mut,
    transfers_insert, transfers_len, transfers_new, transfers_remove, TransferEntry, TransferView,
};
use indexmap::IndexMap;
use vstd::prelude::*;

verus! {

/// One file of the session.
#[derive(Debug)]
pub struct FileEntry {
    /// S3 key returned by the start call: the public identifier of the file.
    pub file_key: String,
    /// SHA-256 over the transfer id and the content; finds a file again.
    pub file_hash: String,
    pub transfer_id: String,
    /// Filesystem path, or empty where the platform hands over a descriptor.
    pub file_path: String,
    pub file_name: String,
    pub state: UploadState,
    pub total_bytes: u64,
    pub uploaded_bytes: u64,
    pub completed_parts: u32,
    pub total_parts: u32,
    /// Multipart upload id from the start call; needed to resume.
    pub upload_id: Option<String>,
    pub part_size: Option<u64>,
    /// ETags of the parts that are confirmed; a resumed run skips these parts.
    pub completed_chunk_etags: Vec<(u32, String)>,
    /// Grows with every resume, so that a run can tell that it has been superseded.
    pub run_version: u64,
    /// Extra parameters for the start call.
    pub user_params: StringMap<String>,
}

/// The content of a `FileEntry`.
#[verifier::ext_equal]
pub struct FileView {
    pub file_key: Seq<char>,
    pub file_hash: Seq<char>,
    pub transfer_id: Seq<char>,
    pub file_path: Seq<char>,
    pub file_name: Seq<char>,
    pub state: UploadState,
    pub total_bytes: u64,
    pub uploaded_bytes: u64,
    pub completed_parts: u32,
    pub total_parts: u32,
    pub upload_id: Option<Seq<char>>,
    pub part_size: Option<u64>,
    pub completed_chunk_etags: Seq<(u32, Seq<char>)>,
    pub run_version: u64,
    pub user_params: Seq<(Seq<char>, Seq<char>)>,
}

/// The text of an optional string.
pub open spec fn text_opt(s: Option<String>) -> Option<Seq<char>> {
    match s {
        Some(t) => Some(t@),
        None => None,
    }
}

/// The text of an optional string slice.
pub open spec fn str_opt(s: Option<&str>) -> Option<Seq<char>> {
    match s {
        Some(t) => Some(t@),
        None => None,
    }
}

/// The part numbers with the texts of their ETags.
pub open spec fn etags(v: Seq<(u32, String)>) -> Seq<(u32, Seq<char>)> {
    v.map_values(|p: (u32, String)| (p.0, p.1@))
}

impl View for FileEntry {
    type V = FileView;

    open spec fn view(&self) -> FileView {
        FileView {
            file_key: self.file_key@,
            file_hash: self.file_hash@,
            transfer_id: self.transfer_id@,
            file_path: self.file_path@,
            file_name: self.file_name@,
            state: self.state,
            total_bytes: self.total_bytes,
            uploaded_bytes: self.uploaded_bytes,
            completed_parts: self.completed_parts,
            total_parts: self.total_parts,
            upload_id: text_opt(self.upload_id),
            part_size: self.part_size,
            completed_chunk_etags: etags(self.completed_chunk_etags@),
            run_version: self.run_version,
            user_params: self.user_params@,
        }
    }
}

/// A file as it stands when it is registered.
pub open spec fn new_file(
    file_key: Seq<char>,
    file_hash: Seq<char>,
    transfer_id: Seq<char>,
    file_path: Seq<char>,
    file_name: Seq<char>,
    total_bytes: u64,
    user_params: Seq<(Seq<char>, Seq<char>)>,
) -> FileView {
    FileView {
        file_key,
        file_hash,
        transfer_id,
        file_path,
        file_name,
        state: UploadState::Initialized,
        total_bytes,
        uploaded_bytes: 0,
        completed_parts: 0,
        total_parts: 0,
        upload_id: None,
        part_size: None,
        completed_chunk_etags: Seq::empty(),
        run_version: 0,
        user_params,
    }
}

impl FileView {
    /// A run of this file can be taken up again.
    pub open spec fn resumable(self) -> bool {
        self.upload_id is Some && self.state != UploadState::Completed && self.state
            != UploadState::Cancelled
    }

    /// How much of the file is done.
    pub open spec fn percentage(self) -> Percentage {
        if self.state == UploadState::Completed {
            Percentage::Full
        } else {
            percentage_of(self.uploaded_bytes, self.total_bytes)
        }
    }
}

impl FileEntry {
    pub fn new(
        file_key: String,
        file_hash: String,
        transfer_id: String,
        file_path: String,
        file_name: String,
        total_bytes: u64,
        user_params: StringMap<String>,
    ) -> (r: Self)
        ensures
            r@ == new_file(
                file_key@,
                file_hash@,
                transfer_id@,
                file_path@,
                file_name@,
                total_bytes,
                user_params@,
            ),
    {
        let r = FileEntry {
            file_key,
            file_hash,
            transfer_id,
            file_path,
            file_name,
            state: UploadState::Initialized,
            total_bytes,
            uploaded_bytes: 0,
            completed_parts: 0,
            total_parts: 0,
            upload_id: None,
            part_size: None,
            completed_chunk_etags: Vec::new(),
            run_version: 0,
            user_params,
        };
        assert(r@.completed_chunk_etags =~= Seq::<(u32, Seq<char>)>::empty());
        r
    }

    /// How much of the file is done.
    pub fn percentage(&self) -> (r: Percentage)
        ensures
            r == self@.percentage(),
    {
        if self.state == UploadState::Completed {
            Percentage::Full
        } else {
            Percentage::of(self.uploaded_bytes, self.total_bytes)
        }
    }

    /// Whether a run of this file can be taken up again.
    pub fn is_resumable(&self) -> (r: bool)
        ensures
            r == self@.resumable(),
    {
        matches!(
            self.state,
            UploadState::NotStarted | UploadState::Initialized | UploadState::Failed
                | UploadState::Paused | UploadState::Running
        ) && self.upload_id.is_some()
    }
}

/// A file that is hashed and announced, but for which the start call has not been
/// made yet. It is not persisted.
#[derive(Debug)]
pub struct PendingFileEntry {
    pub file_hash: String,
    pub transfer_id: String,
    pub file_path: String,
    pub file_name: String,
    pub file_size: u64,
    pub user_params: StringMap<String>,
}

/// The content of a `PendingFileEntry`.
#[verifier::ext_equal]
pub struct PendingView {
    pub file_hash: Seq<char>,
    pub transfer_id: Seq<char>,
    pub file_path: Seq<char>,
    pub file_name: Seq<char>,
    pub file_size: u64,
    pub user_params: Seq<(Seq<char>, Seq<char>)>,
}

impl View for PendingFileEntry {
    type V = PendingView;

    open spec fn view(&self) -> PendingView {
        PendingView {
            file_hash: self.file_hash@,
            transfer_id: self.transfer_id@,
            file_path: self.file_path@,
            file_name: self.file_name@,
            file_size: self.file_size,
            user_params: self.user_params@,
        }
    }
}

/// Everything that is known about the current uploads.
#[derive(Debug)]
pub struct Session {
    /// File key to entry: the primary index.
    pub files: StringMap<FileEntry>,
    /// File hash to file key: finds duplicates and files to resume.
    pub hash_to_key: StringMap<String>,
    /// The transfers in the order in which they began.
    pub transfers: IndexMap<String, TransferEntry>,
    pub global_state: GlobalUploaderState,
    pub current_transfer_id: Option<String>,
    pub title_template: String,
    pub subtitle_template: String,
    /// Files that wait for the start call, by hash. Not persisted.
    pub pending_files: StringMap<PendingFileEntry>,
    /// Hashes of the files that need a fresh local file before they can go on.
    /// Filled when a persisted session is loaded; not persisted itself.
    pub files_needing_provision: StringSet,
}

/// The content of a `Session`.
#[verifier::ext_equal]
pub struct SessionView {
    pub files: Seq<(Seq<char>, FileView)>,
    pub hash_to_key: Seq<(Seq<char>, Seq<char>)>,
    pub transfers: Seq<(Seq<char>, TransferView)>,
    pub global_state: GlobalUploaderState,
    pub current_transfer_id: Option<Seq<char>>,
    pub title_template: Seq<char>,
    pub subtitle_template: Seq<char>,
    pub pending_files: Seq<(Seq<char>, PendingView)>,
    pub files_needing_provision: Set<Seq<char>>,
}

impl View for Session {
    type V = SessionView;

    open spec fn view(&self) -> SessionView {
        SessionView {
            files: self.files@,
            hash_to_key: self.hash_to_key@,
            transfers: registered(self.transfers),
            global_state: self.global_state,
            current_transfer_id: text_opt(self.current_transfer_id),
            title_template: self.title_template@,
            subtitle_template: self.subtitle_template@,
            pending_files: self.pending_files@,
            files_needing_provision: self.files_needing_provision@,
        }
    }
}

impl SessionView {
    /// No key is held twice, and every file stands under its own key.
    pub open spec fn sound(self) -> bool {
        &&& unique(self.files)
        &&& unique(self.hash_to_key)
        &&& unique(self.transfers)
        &&& unique(self.pending_files)
        &&& keyed(self.files)
    }

    /// The state that counts for `f`: a file that must be provided again cannot run.
    pub open spec fn effective(self, f: FileView) -> UploadState {
        if self.files_needing_provision.contains(f.file_hash) {
            UploadState::Paused
        } else {
            f.state
        }
    }

    /// Some file is effectively in state `st`.
    pub open spec fn some_file(self, st: UploadState) -> bool {
        exists|i: int| 0 <= i < self.files.len() && self.effective((#[trigger] self.files[i]).1) == st
    }

    /// Every file is effectively completed.
    pub open spec fn all_completed(self) -> bool {
        forall|i: int| 0 <= i < self.files.len() ==> self.effective((#[trigger] self.files[i]).1)
            == UploadState::Completed
    }

    /// Every file is at rest: neither running nor failed nor cancelled.
    pub open spec fn all_at_rest(self) -> bool {
        forall|i: int| 0 <= i < self.files.len() ==> at_rest(self.effective((#[trigger] self.files[i]).1))
    }

    /// The state of the uploader that follows from the states of its files.
    pub open spec fn derived_state(self) -> GlobalUploaderState {
        if self.files.len() == 0 && self.pending_files.len() == 0 {
            GlobalUploaderState::NotStarted
        } else if self.pending_files.len() == 0 && self.all_completed() {
            GlobalUploaderState::Completed
        } else if self.some_file(UploadState::Running) {
            GlobalUploaderState::Running
        } else if self.some_file(UploadState::Failed) {
            GlobalUploaderState::Failed
        } else if self.some_file(UploadState::Paused) && self.all_at_rest() {
            GlobalUploaderState::Paused
        } else {
            GlobalUploaderState::NotStarted
        }
    }

    /// The session with its global state brought up to date.
    pub open spec fn recomputed(self) -> SessionView {
        SessionView { global_state: self.derived_state(), ..self }
    }

    /// The session with the file under `key`, if there is one, replaced by `f` of it.
    pub open spec fn with_file(self, key: Seq<char>, f: spec_fn(FileView) -> FileView) -> SessionView {
        match lookup(self.files, key) {
            Some(e) => SessionView { files: put(self.files, key, f(e)), ..self },
            None => self,
        }
    }

    /// The session with `f` added under its key, its hash and its transfer.
    pub open spec fn with_new_file(self, f: FileView) -> SessionView {
        SessionView {
            files: put(self.files, f.file_key, f),
            hash_to_key: put(self.hash_to_key, f.file_hash, f.file_key),
            transfers: enlisted(self.transfers, f.transfer_id, f.file_key),
            ..self
        }
    }

    /// The file with hash `h`, if the session knows one.
    pub open spec fn by_hash(self, h: Seq<char>) -> Option<FileView> {
        match lookup(self.hash_to_key, h) {
            Some(key) => lookup(self.files, key),
            None => None,
        }
    }

    /// The first file of transfer `id` that waits.
    pub open spec fn waiting_in(self, id: Seq<char>) -> Option<Seq<char>> {
        match lookup(self.transfers, id) {
            Some(t) => first_waiting(self.files, t.file_keys),
            None => None,
        }
    }

    /// The position, from `from` on, of the first transfer with a file that waits; the
    /// number of transfers where there is none.
    pub open spec fn waiting_transfer(self, from: int) -> int
        decreases self.transfers.len() - from,
    {
        if from < 0 || from >= self.transfers.len() {
            self.transfers.len() as int
        } else if self.waiting_in(self.transfers[from].0) is Some {
            from
        } else {
            self.waiting_transfer(from + 1)
        }
    }

    /// The file to upload next, and the session with the transfer it belongs to as the
    /// current one. The current transfer goes first, then the others in their order.
    pub open spec fn next_pending(self) -> (Option<Seq<char>>, SessionView) {
        if self.current_transfer_id is Some && self.waiting_in(self.current_transfer_id->0) is Some {
            (self.waiting_in(self.current_transfer_id->0), self)
        } else if self.waiting_transfer(0) < self.transfers.len() {
            let id = self.transfers[self.waiting_transfer(0)].0;
            (self.waiting_in(id), SessionView { current_transfer_id: Some(id), ..self })
        } else {
            (None, self)
        }
    }

    /// The session with `f`, if it is a file, forgotten by hash.
    pub open spec fn forgotten(self, f: Option<FileView>) -> SessionView {
        match f {
            Some(e) => SessionView {
                hash_to_key: without(self.hash_to_key, e.file_hash),
                files_needing_provision: self.files_needing_provision.remove(e.file_hash),
                ..self
            },
            None => self,
        }
    }

    /// The session without the file under `key`.
    pub open spec fn without_file(self, key: Seq<char>) -> SessionView {
        (SessionView {
            files: without(self.files, key),
            transfers: struck(self.transfers, key),
            ..self.forgotten(lookup(self.files, key))
        }).recomputed()
    }

    /// The session without the file, pending or registered, with hash `h`.
    pub open spec fn without_hash(self, h: Seq<char>) -> SessionView {
        let s = SessionView {
            pending_files: without(self.pending_files, h),
            files_needing_provision: self.files_needing_provision.remove(h),
            hash_to_key: without(self.hash_to_key, h),
            ..self
        };
        match lookup(self.hash_to_key, h) {
            Some(key) => (SessionView {
                files: without(self.files, key),
                transfers: struck(self.transfers, key),
                ..s
            }).recomputed(),
            None => s.recomputed(),
        }
    }

    /// The session without the files under `keys` and what their hashes lead to.
    pub open spec fn without_keys(self, keys: Seq<Seq<char>>) -> SessionView {
        SessionView {
            files: self.files.filter(|p: (Seq<char>, FileView)| !keys.contains(p.0)),
            hash_to_key: self.hash_to_key.filter(
                |p: (Seq<char>, Seq<char>)| !hash_among(self.files, keys, p.0),
            ),
            files_needing_provision: self.files_needing_provision.filter(
                |h: Seq<char>| !hash_among(self.files, keys, h),
            ),
            ..self
        }
    }

    /// The session without transfer `id`, its files and its pending files.
    pub open spec fn without_transfer(self, id: Seq<char>) -> SessionView {
        let s = match lookup(self.transfers, id) {
            Some(t) => self.without_keys(t.file_keys),
            None => self,
        };
        (SessionView {
            pending_files: self.pending_files.filter(
                |p: (Seq<char>, PendingView)| p.1.transfer_id != id,
            ),
            transfers: without(self.transfers, id),
            current_transfer_id: if self.current_transfer_id == Some(id) {
                None
            } else {
                self.current_transfer_id
            },
            ..s
        }).recomputed()
    }

    /// The session with `p` pending; its local file is there.
    pub open spec fn with_pending(self, p: PendingView) -> SessionView {
        SessionView {
            pending_files: put(self.pending_files, p.file_hash, p),
            files_needing_provision: self.files_needing_provision.remove(p.file_hash),
            ..self
        }
    }

    /// The session with the pending file with hash `h`, if there is one, turned into a
    /// file under `key`.
    pub open spec fn initialized(
        self,
        h: Seq<char>,
        key: Seq<char>,
        upload_id: Seq<char>,
        part_size: u64,
        total_parts: u32,
    ) -> SessionView {
        match lookup(self.pending_files, h) {
            Some(p) => (SessionView {
                pending_files: without(self.pending_files, h),
                ..self
            }).with_new_file(
                FileView {
                    upload_id: Some(upload_id),
                    part_size: Some(part_size),
                    total_parts,
                    ..new_file(
                        key,
                        h,
                        p.transfer_id,
                        p.file_path,
                        p.file_name,
                        p.file_size,
                        p.user_params,
                    )
                },
            ),
            None => self,
        }
    }

    /// The session with the file under `key` in another state.
    pub open spec fn marked(self, key: Seq<char>, state: UploadState) -> SessionView {
        self.with_file(key, |f: FileView| FileView { state, ..f }).recomputed()
    }

    /// The version of the run that counts for the file under `key`.
    pub open spec fn run_of(self, key: Seq<char>) -> Option<u64> {
        match lookup(self.files, key) {
            Some(f) => Some(f.run_version),
            None => None,
        }
    }

    /// The session as it stands once it has been loaded: nothing runs any more, and every
    /// file that is not completed needs its local file.
    pub open spec fn loaded(self) -> SessionView {
        (SessionView {
            files_needing_provision: unfinished_hashes(self.files),
            ..self.with_files(|f: FileView| stopped(f))
        }).recomputed()
    }

    /// The session with nothing left but its templates.
    pub open spec fn emptied(self) -> SessionView {
        SessionView {
            title_template: self.title_template,
            subtitle_template: self.subtitle_template,
            ..Session::empty()
        }
    }

    /// The session with every file paused that ran.
    pub open spec fn paused(self) -> SessionView {
        self.with_files(|f: FileView| stopped(f)).recomputed()
    }

    /// The session with every file replaced by `f` of it.
    pub open spec fn with_files(self, f: spec_fn(FileView) -> FileView) -> SessionView {
        SessionView {
            files: self.files.map_values(|p: (Seq<char>, FileView)| (p.0, f(p.1))),
            ..self
        }
    }
}

/// A file under one of `keys` has hash `h`.
pub open spec fn hash_among(
    files: Seq<(Seq<char>, FileView)>,
    keys: Seq<Seq<char>>,
    h: Seq<char>,
) -> bool {
    exists|i: int| 0 <= i < files.len() && keys.contains((#[trigger] files[i]).0)
        && files[i].1.file_hash == h
}

/// A file that ran counts as paused.
pub open spec fn stopped(f: FileView) -> FileView {
    if f.state == UploadState::Running {
        FileView { state: UploadState::Paused, ..f }
    } else {
        f
    }
}

/// The hashes of the files that are not completed.
pub open spec fn unfinished_hashes(files: Seq<(Seq<char>, FileView)>) -> Set<Seq<char>> {
    Set::new(
        |h: Seq<char>| exists|i: int| 0 <= i < files.len() && (#[trigger] files[i]).1.file_hash == h
            && files[i].1.state != UploadState::Completed,
    )
}

/// The registry with `key` appended to the files of transfer `id`, which is added
/// where it is new.
pub open spec fn enlisted(
    transfers: Seq<(Seq<char>, TransferView)>,
    id: Seq<char>,
    key: Seq<char>,
) -> Seq<(Seq<char>, TransferView)> {
    match lookup(transfers, id) {
        Some(t) => put(transfers, id, TransferView { file_keys: t.file_keys.push(key), ..t }),
        None => put(transfers, id, TransferView { transfer_id: id, file_keys: seq![key] }),
    }
}

/// The keys other than `key`.
pub open spec fn other_than(key: Seq<char>) -> spec_fn(Seq<char>) -> bool {
    |k: Seq<char>| k != key
}

/// The registry with `key` struck from every transfer.
pub open spec fn struck(
    transfers: Seq<(Seq<char>, TransferView)>,
    key: Seq<char>,
) -> Seq<(Seq<char>, TransferView)> {
    transfers.map_values(
        |p: (Seq<char>, TransferView)|
            (
                p.0,
                TransferView { file_keys: p.1.file_keys.filter(other_than(key)), ..p.1 },
            ),
    )
}

/// A file in this state waits to be picked up for upload.
pub open spec fn waiting(st: UploadState) -> bool {
    st == UploadState::NotStarted || st == UploadState::Initialized || st == UploadState::Failed
        || st == UploadState::Paused
}

/// The first of `keys` under which a file waits.
pub open spec fn first_waiting(
    files: Seq<(Seq<char>, FileView)>,
    keys: Seq<Seq<char>>,
) -> Option<Seq<char>>
    decreases keys.len(),
{
    if keys.len() == 0 {
        None
    } else if lookup(files, keys[0]) is Some && waiting((lookup(files, keys[0])->0).state) {
        Some(keys[0])
    } else {
        first_waiting(files, keys.skip(1))
    }
}

/// The part is among the confirmed ones.
pub open spec fn confirmed(etags: Seq<(u32, Seq<char>)>, part_number: u32) -> bool {
    exists|i: int| 0 <= i < etags.len() && (#[trigger] etags[i]).0 == part_number
}

/// `f` once part `part_number` of `size` bytes is confirmed; nothing new where it was
/// confirmed before.
pub open spec fn chunk_completed(f: FileView, part_number: u32, etag: Seq<char>, size: u64) -> FileView {
    if confirmed(f.completed_chunk_etags, part_number) {
        f
    } else {
        FileView {
            completed_chunk_etags: f.completed_chunk_etags.push((part_number, etag)),
            completed_parts: (f.completed_parts + 1) as u32,
            uploaded_bytes: if f.uploaded_bytes + size <= f.total_bytes {
                (f.uploaded_bytes + size) as u64
            } else {
                f.total_bytes
            },
            ..f
        }
    }
}

/// Confirming the part leaves the counts of the file, if there is one, in range.
pub open spec fn chunk_addable(s: SessionView, key: Seq<char>, part_number: u32, size: u64) -> bool {
    lookup(s.files, key) matches Some(f) ==> (confirmed(f.completed_chunk_etags, part_number) || (
    f.completed_parts < u32::MAX && f.uploaded_bytes + size <= u64::MAX))
}

/// `f` with its run version one up, unless that is at its limit.
pub open spec fn bumped(f: FileView) -> FileView {
    FileView {
        run_version: if f.run_version < u64::MAX {
            (f.run_version + 1) as u64
        } else {
            u64::MAX
        },
        ..f
    }
}

/// A file in this state neither runs nor has failed nor was cancelled.
pub open spec fn at_rest(st: UploadState) -> bool {
    st == UploadState::Paused || st == UploadState::Completed || st == UploadState::NotStarted
        || st == UploadState::Initialized
}

/// Every file stands under its own key.
pub open spec fn keyed(files: Seq<(Seq<char>, FileView)>) -> bool {
    forall|i: int| 0 <= i < files.len() ==> (#[trigger] files[i]).1.file_key == files[i].0
}

/// Files stay under their own keys when one is taken out.
proof fn lemma_keyed_without(files: Seq<(Seq<char>, FileView)>, k: Seq<char>)
    requires
        unique(files),
        keyed(files),
    ensures
        unique(without(files, k)),
        keyed(without(files, k)),
{
    lemma_without(files, k, k);
}

/// Replacing every file by `h` of it replaces what is found under each key.
pub proof fn lemma_with_files_lookup(s: SessionView, h: spec_fn(FileView) -> FileView, key: Seq<char>)
    requires
        unique(s.files),
    ensures
        unique(s.with_files(h).files),
        lookup(s.with_files(h).files, key) == (match lookup(s.files, key) {
            Some(f) => Some(h(f)),
            None => None,
        }),
{
    let after = s.with_files(h).files;
    assert forall|i: int| 0 <= i < after.len() implies (#[trigger] after[i]) == (s.files[i].0, h(s.files[i].1)) by {}
    if holds(s.files, key) {
        let i = at(s.files, key);
        assert(after[i].0 == key);
        lemma_at(after, i);
    }
    if holds(after, key) {
        let i = at(after, key);
        assert(s.files[i].0 == key);
    }
}

/// Replacing one file is replacing every file by itself but the one under `key`.
pub proof fn lemma_with_file(s: SessionView, key: Seq<char>, h: spec_fn(FileView) -> FileView)
    requires
        unique(s.files),
        keyed(s.files),
    ensures
        s.with_file(key, h) == s.with_files(|f: FileView| if f.file_key == key { h(f) } else { f }),
{
    let g = |f: FileView| if f.file_key == key { h(f) } else { f };
    let a = s.with_file(key, h).files;
    let b = s.with_files(g).files;
    assert forall|i: int| 0 <= i < b.len() implies #[trigger] b[i] == (s.files[i].0, g(s.files[i].1)) by {}
    if holds(s.files, key) {
        let spot = at(s.files, key);
        assert forall|i: int| 0 <= i < a.len() implies a[i] == b[i] by {
            assert(s.files[i].1.file_key == s.files[i].0);
            if i != spot {
                assert(s.files[i].0 != key);
            }
        }
    } else {
        assert forall|i: int| 0 <= i < a.len() implies a[i] == b[i] by {
            assert(s.files[i].1.file_key == s.files[i].0);
        }
    }
    assert(a =~= b);
}

/// Without no keys, nothing changes.
proof fn lemma_without_no_keys(s: SessionView)
    ensures
        s.without_keys(Seq::empty()) == s,
{
    let none = Seq::<Seq<char>>::empty();
    lemma_filter_all(s.files, |p: (Seq<char>, FileView)| !none.contains(p.0));
    lemma_filter_all(s.hash_to_key, |p: (Seq<char>, Seq<char>)| !hash_among(s.files, none, p.0));
    assert(s.without_keys(none).files_needing_provision =~= s.files_needing_provision);
}

/// A filter that accepts every item keeps them all.
proof fn lemma_filter_all<A>(s: Seq<A>, f: spec_fn(A) -> bool)
    requires
        forall|i: int| 0 <= i < s.len() ==> f(#[trigger] s[i]),
    ensures
        s.filter(f) == s,
    decreases s.len(),
{
    reveal(Seq::filter);
    if s.len() > 0 {
        let front = s.drop_last();
        assert forall|i: int| 0 <= i < front.len() implies f(#[trigger] front[i]) by {
            assert(front[i] == s[i]);
        }
        lemma_filter_all(front, f);
        assert(s[s.len() - 1] == s.last());
        assert(front.push(s.last()) =~= s);
    }
}

/// Taking out one more key: the file under it, if it is still there, goes with its hash.
proof fn lemma_without_key(s: SessionView, keys: Seq<Seq<char>>, k: Seq<char>)
    requires
        unique(s.files),
        unique(s.hash_to_key),
    ensures
        ({
            let t = s.without_keys(keys);
            s.without_keys(keys.push(k)) == match lookup(t.files, k) {
                Some(e) => SessionView { files: without(t.files, k), ..t.forgotten(Some(e)) },
                None => t,
            }
        }),
{
    let more = keys.push(k);
    let t = s.without_keys(keys);
    let u = s.without_keys(more);
    let keep = |p: (Seq<char>, FileView)| !keys.contains(p.0);
    let keep_more = |p: (Seq<char>, FileView)| !more.contains(p.0);
    let other = |p: (Seq<char>, FileView)| p.0 != k;
    assert forall|j: Seq<char>| more.contains(j) == (j == k || keys.contains(j)) by {
        if j == k {
            assert(more[keys.len() as int] == k);
        }
        if keys.contains(j) {
            let n = choose|n: int| 0 <= n < keys.len() && keys[n] == j;
            assert(more[n] == j);
        }
    }
    lemma_filter_unique(s.files, keep);
    lemma_filter_unique(s.hash_to_key, |p: (Seq<char>, Seq<char>)| !hash_among(s.files, keys, p.0));
    lemma_without_filter(t.files, k);
    lemma_filter_twice(s.files, keep, other);
    lemma_filter_agree(s.files, |p: (Seq<char>, FileView)| keep(p) && other(p), keep_more);
    assert(u.files == without(t.files, k));
    if holds(t.files, k) {
        let e = lookup(t.files, k)->0;
        let spot = at(t.files, k);
        assert(t.files[spot] == (k, e));
        assert(s.files.contains((k, e)));
        let n = choose|n: int| 0 <= n < s.files.len() && s.files[n] == (k, e);
        assert forall|h: Seq<char>| hash_among(s.files, more, h) == (hash_among(s.files, keys, h) || h == e.file_hash) by {
            if hash_among(s.files, more, h) {
                let j = choose|j: int| 0 <= j < s.files.len() && more.contains((#[trigger] s.files[j]).0)
                    && s.files[j].1.file_hash == h;
                if s.files[j].0 == k {
                    assert(j == n);
                } else {
                    assert(keys.contains(s.files[j].0));
                }
            }
            if h == e.file_hash {
                assert(more.contains(s.files[n].0));
            }
            if hash_among(s.files, keys, h) {
                let j = choose|j: int| 0 <= j < s.files.len() && keys.contains((#[trigger] s.files[j]).0)
                    && s.files[j].1.file_hash == h;
                assert(more.contains(s.files[j].0));
            }
        }
        let f = |p: (Seq<char>, Seq<char>)| !hash_among(s.files, keys, p.0);
        let g = |p: (Seq<char>, Seq<char>)| p.0 != e.file_hash;
        lemma_without_filter(t.hash_to_key, e.file_hash);
        lemma_filter_twice(s.hash_to_key, f, g);
        lemma_filter_agree(
            s.hash_to_key,
            |p: (Seq<char>, Seq<char>)| f(p) && g(p),
            |p: (Seq<char>, Seq<char>)| !hash_among(s.files, more, p.0),
        );
        assert(u.files_needing_provision =~= t.files_needing_provision.remove(e.file_hash));
    } else {
        assert forall|h: Seq<char>| hash_among(s.files, more, h) == hash_among(s.files, keys, h) by {
            if hash_among(s.files, more, h) {
                let j = choose|j: int| 0 <= j < s.files.len() && more.contains((#[trigger] s.files[j]).0)
                    && s.files[j].1.file_hash == h;
                if !keys.contains(s.files[j].0) {
                    assert(t.files.contains(s.files[j]));
                    let n = choose|n: int| 0 <= n < t.files.len() && t.files[n] == s.files[j];
                    assert(t.files[n].0 == k);
                    assert(false);
                }
            }
            if hash_among(s.files, keys, h) {
                let j = choose|j: int| 0 <= j < s.files.len() && keys.contains((#[trigger] s.files[j]).0)
                    && s.files[j].1.file_hash == h;
                assert(more.contains(s.files[j].0));
            }
        }
        lemma_filter_agree(
            s.hash_to_key,
            |p: (Seq<char>, Seq<char>)| !hash_among(s.files, keys, p.0),
            |p: (Seq<char>, Seq<char>)| !hash_among(s.files, more, p.0),
        );
        assert(u.files_needing_provision =~= t.files_needing_provision);
    }
}

/// The keys other than `key`, in their order.
fn other_keys(keys: &Vec<String>, key: &str) -> (r: Vec<String>)
    ensures
        texts(r@) == texts(keys@).filter(other_than(key@)),
{
    let ghost all = texts(keys@);
    let ghost other = other_than(key@);
    let mut r: Vec<String> = Vec::new();
    let mut i: usize = 0;
    assert(texts(r@) =~= all.take(0).filter(other)) by {
        reveal(Seq::filter);
    }
    while i < keys.len()
        invariant
            i <= keys@.len(),
            all == texts(keys@),
            other == other_than(key@),
            texts(r@) == all.take(i as int).filter(other),
        decreases keys@.len() - i,
    {
        proof {
            assert(all.take(i + 1) =~= all.take(i as int).push(all[i as int]));
            all.take(i as int).lemma_filter_push(all[i as int], other);
        }
        if !same_text(keys[i].as_str(), key) {
            let ghost before = texts(r@);
            r.push(keys[i].clone());
            assert(texts(r@) =~= before.push(keys[i as int]@));
        }
        i += 1;
    }
    assert(all.take(all.len() as int) =~= all);
    r
}

fn clone_keys(keys: &Vec<String>) -> (r: Vec<String>)
    ensures
        texts(r@) == texts(keys@),
{
    let mut r: Vec<String> = Vec::new();
    let mut i: usize = 0;
    while i < keys.len()
        invariant
            i <= keys@.len(),
            texts(r@) =~= texts(keys@).take(i as int),
        decreases keys@.len() - i,
    {
        let ghost before = texts(r@);
        r.push(keys[i].clone());
        assert(texts(r@) =~= before.push(keys[i as int]@));
        i += 1;
    }
    assert(texts(r@) =~= texts(keys@));
    r
}

fn is_confirmed(v: &Vec<(u32, String)>, part_number: u32) -> (r: bool)
    ensures
        r == confirmed(etags(v@), part_number),
{
    let mut i: usize = 0;
    while i < v.len()
        invariant
            i <= v@.len(),
            forall|j: int| 0 <= j < i ==> (#[trigger] etags(v@)[j]).0 != part_number,
        decreases v@.len() - i,
    {
        assert(etags(v@)[i as int].0 == v@[i as int].0);
        if v[i].0 == part_number {
            return true;
        }
        i += 1;
    }
    false
}

impl Session {
    /// No key is held twice, and every file stands under its own key.
    pub open spec fn wf(&self) -> bool {
        self@.sound() && self.files_needing_provision.wf()
    }

    /// An empty session.
    pub open spec fn empty() -> SessionView {
        SessionView {
            files: Seq::empty(),
            hash_to_key: Seq::empty(),
            transfers: Seq::empty(),
            global_state: GlobalUploaderState::NotStarted,
            current_transfer_id: None,
            title_template: Seq::empty(),
            subtitle_template: Seq::empty(),
            pending_files: Seq::empty(),
            files_needing_provision: Set::empty(),
        }
    }

    pub fn new() -> (r: Self)
        ensures
            r.wf(),
            r@ == Session::empty(),
    {
        Session {
            files: StringMap::new(),
            hash_to_key: StringMap::new(),
            transfers: transfers_new(),
            global_state: GlobalUploaderState::NotStarted,
            current_transfer_id: None,
            title_template: String::new(),
            subtitle_template: String::new(),
            pending_files: StringMap::new(),
            files_needing_provision: StringSet::new(),
        }
    }

    /// Brings the global state up to date with the states of the files.
    pub fn recompute_global_state(&mut self)
        requires
            old(self).wf(),
        ensures
            final(self).wf(),
            final(self)@ == old(self)@.recomputed(),
    {
        let has_pending = !self.pending_files.is_empty();
        if self.files.is_empty() && !has_pending {
            self.global_state = GlobalUploaderState::NotStarted;
            return;
        }
        let mut all_completed = true;
        let mut all_at_rest = true;
        let mut any_running = false;
        let mut any_failed = false;
        let mut any_paused = false;
        let mut i: usize = 0;
        while i < self.files.len()
            invariant
                *self == *old(self),
                i <= self@.files.len(),
                all_completed == forall|j: int| 0 <= j < i ==> self@.effective((#[trigger] self@.files[j]).1) == UploadState::Completed,
                all_at_rest == forall|j: int| 0 <= j < i ==> at_rest(self@.effective((#[trigger] self@.files[j]).1)),
                any_running == exists|j: int| 0 <= j < i && self@.effective((#[trigger] self@.files[j]).1) == UploadState::Running,
                any_failed == exists|j: int| 0 <= j < i && self@.effective((#[trigger] self@.files[j]).1) == UploadState::Failed,
                any_paused == exists|j: int| 0 <= j < i && self@.effective((#[trigger] self@.files[j]).1) == UploadState::Paused,
            decreases self@.files.len() - i,
        {
            let f = self.files.value_at(i);
            let st = if self.files_needing_provision.contains(f.file_hash.as_str()) {
                UploadState::Paused
            } else {
                f.state
            };
            assert(st == self@.effective(self@.files[i as int].1));
            all_completed = all_completed && st == UploadState::Completed;
            all_at_rest = all_at_rest && matches!(
                st,
                UploadState::Paused | UploadState::Completed | UploadState::NotStarted
                    | UploadState::Initialized
            );
            any_running = any_running || st == UploadState::Running;
            any_failed = any_failed || st == UploadState::Failed;
            any_paused = any_paused || st == UploadState::Paused;
            i += 1;
        }
        self.global_state = if !has_pending && all_completed {
            GlobalUploaderState::Completed
        } else if any_running {
            GlobalUploaderState::Running
        } else if any_failed {
            GlobalUploaderState::Failed
        } else if any_paused && all_at_rest {
            GlobalUploaderState::Paused
        } else {
            GlobalUploaderState::NotStarted
        };
        assert(self@ =~= old(self)@.recomputed());
    }

    /// Notes which files need a fresh local file. To be called once, when a persisted
    /// session has been loaded: no file runs any more.
    pub fn recompute_needs_provision(&mut self)
        requires
            old(self).wf(),
        ensures
            final(self).wf(),
            final(self)@ == old(self)@.loaded(),
    {
        let mut missing = StringSet::new();
        let mut i: usize = 0;
        while i < self.files.len()
            invariant
                *self == *old(self),
                missing.wf(),
                i <= self@.files.len(),
                missing@ == unfinished_hashes(self@.files.take(i as int)),
            decreases self@.files.len() - i,
        {
            let f = self.files.value_at(i);
            let ghost done = self@.files.take(i as int);
            let ghost next = self@.files.take(i + 1);
            let ghost before = missing@;
            assert(next =~= done.push(self@.files[i as int]));
            if f.state != UploadState::Completed {
                let _ = missing.insert(f.file_hash.clone());
            }
            proof {
                assert forall|h: Seq<char>| missing@.contains(h) == unfinished_hashes(next).contains(h) by {
                    if before.contains(h) {
                        let j = choose|j: int| 0 <= j < done.len() && (#[trigger] done[j]).1.file_hash == h
                            && done[j].1.state != UploadState::Completed;
                        assert(next[j] == done[j]);
                    }
                    assert(next[i as int] == self@.files[i as int]);
                    if unfinished_hashes(next).contains(h) {
                        let j = choose|j: int| 0 <= j < next.len() && (#[trigger] next[j]).1.file_hash == h
                            && next[j].1.state != UploadState::Completed;
                        if j < i {
                            assert(done[j] == next[j]);
                        }
                    }
                }
                assert(missing@ =~= unfinished_hashes(next));
            }
            i += 1;
        }
        assert(self@.files.take(self@.files.len() as int) =~= self@.files);
        self.files_needing_provision = missing;
        self.stop_running_files();
        self.recompute_global_state();
    }

    /// Turns every running file into a paused one.
    fn stop_running_files(&mut self)
        requires
            old(self).wf(),
        ensures
            final(self).wf(),
            final(self)@ == old(self)@.with_files(|f: FileView| stopped(f)),
    {
        let n: usize = self.files.len();
        let mut i: usize = 0;
        while i < n
            invariant
                n == old(self)@.files.len(),
                self@.files.len() == n,
                i <= n,
                old(self).wf(),
                self.files_needing_provision.wf(),
                self@ == (SessionView { files: self@.files, ..old(self)@ }),
                forall|j: int| 0 <= j < i ==> #[trigger] self@.files[j] == (old(self)@.files[j].0, stopped(old(self)@.files[j].1)),
                forall|j: int| i <= j < n ==> #[trigger] self@.files[j] == old(self)@.files[j],
            decreases n - i,
        {
            let f = self.files.value_at_mut(i);
            if f.state == UploadState::Running {
                f.state = UploadState::Paused;
            }
            i += 1;
        }
        assert(self@.files =~= old(self)@.with_files(|f: FileView| stopped(f)).files);
    }

    pub fn has_missing_files(&self) -> (r: bool)
        ensures
            r == (self@.files_needing_provision != Set::<Seq<char>>::empty()),
    {
        !self.files_needing_provision.is_empty()
    }

    /// The file with this hash, if it is in the session.
    pub fn find_by_hash(&self, file_hash: &str) -> (r: Option<&FileEntry>)
        requires
            self.wf(),
        ensures
            match r {
                Some(f) => self@.by_hash(file_hash@) == Some(f@),
                None => self@.by_hash(file_hash@) is None,
            },
    {
        match self.hash_to_key.get(file_hash) {
            Some(key) => self.files.get(key.as_str()),
            None => None,
        }
    }

    /// Appends `key` to the files of transfer `id`.
    fn enlist(&mut self, id: String, key: String)
        requires
            old(self).wf(),
        ensures
            final(self).wf(),
            final(self)@ == (SessionView {
                transfers: enlisted(old(self)@.transfers, id@, key@),
                ..old(self)@
            }),
    {
        proof {
            lemma_put(
                self@.transfers,
                id@,
                arbitrary::<TransferView>(),
                id@,
            );
        }
        let ghost before = self@.transfers;
        match transfers_get_mut(&mut self.transfers, id.as_str()) {
            Some(t) => {
                let ghost t0 = (*t)@;
                t.file_keys.push(key);
                assert((*t)@.file_keys =~= t0.file_keys.push(key@));
            },
            None => {
                let mut keys: Vec<String> = Vec::new();
                keys.push(key);
                assert(texts(keys@) =~= seq![key@]);
                transfers_insert(&mut self.transfers, id.clone(), TransferEntry { transfer_id: id, file_keys: keys });
            },
        }
        proof {
            let t = lookup(self@.transfers, id@)->0;
            lemma_put(before, id@, t, id@);
        }
    }

    /// Adds `entry` under its key, its hash and its transfer.
    fn add_file(&mut self, entry: FileEntry)
        requires
            old(self).wf(),
        ensures
            final(self).wf(),
            final(self)@ == old(self)@.with_new_file(entry@),
    {
        let key = entry.file_key.clone();
        let id = entry.transfer_id.clone();
        self.hash_to_key.insert(entry.file_hash.clone(), key.clone());
        proof {
            lemma_put(self@.files, entry@.file_key, entry@, entry@.file_key);
        }
        self.files.insert(key.clone(), entry);
        self.enlist(id, key);
    }

    /// Puts a file back under its key, as it was stored. Its hash and its transfer are put
    /// back on their own.
    pub fn restore_file(&mut self, entry: FileEntry)
        requires
            old(self).wf(),
        ensures
            final(self).wf(),
            final(self)@ == (SessionView {
                files: put(old(self)@.files, entry@.file_key, entry@),
                ..old(self)@
            }),
    {
        proof {
            lemma_put(self@.files, entry@.file_key, entry@, entry@.file_key);
        }
        self.files.insert(entry.file_key.clone(), entry);
    }

    /// Registers a file once the start call has returned its key. To be called only
    /// where `find_by_hash` finds nothing, or a completed file.
    pub fn register_file(
        &mut self,
        file_key: String,
        file_hash: String,
        transfer_id: String,
        file_path: String,
        file_name: String,
        total_bytes: u64,
        user_params: StringMap<String>,
    )
        requires
            old(self).wf(),
        ensures
            final(self).wf(),
            final(self)@ == old(self)@.with_new_file(
                new_file(
                    file_key@,
                    file_hash@,
                    transfer_id@,
                    file_path@,
                    file_name@,
                    total_bytes,
                    user_params@,
                ),
            ),
    {
        let entry = FileEntry::new(
            file_key,
            file_hash,
            transfer_id,
            file_path,
            file_name,
            total_bytes,
            user_params,
        );
        self.add_file(entry);
    }

    /// Notes a new path for a file that the user has selected again.
    pub fn update_file_path(&mut self, file_key: &str, file_path: String)
        requires
            old(self).wf(),
        ensures
            final(self).wf(),
            final(self)@ == old(self)@.with_file(
                file_key@,
                |f: FileView| FileView { file_path: file_path@, ..f },
            ),
    {
        if let Some(entry) = self.files.get_mut(file_key) {
            entry.file_path = file_path;
        }
    }

    /// First phase of an upload: hash and metadata are known, the start call is not
    /// made yet.
    pub fn pre_register_file(
        &mut self,
        file_hash: String,
        transfer_id: String,
        file_path: String,
        file_name: String,
        file_size: u64,
        user_params: StringMap<String>,
    )
        requires
            old(self).wf(),
        ensures
            final(self).wf(),
            final(self)@ == old(self)@.with_pending(
                PendingView {
                    file_hash: file_hash@,
                    transfer_id: transfer_id@,
                    file_path: file_path@,
                    file_name: file_name@,
                    file_size,
                    user_params: user_params@,
                },
            ),
    {
        self.pending_files.insert(
            file_hash.clone(),
            PendingFileEntry {
                file_hash: file_hash.clone(),
                transfer_id,
                file_path,
                file_name,
                file_size,
                user_params,
            },
        );
        let _ = self.files_needing_provision.remove(file_hash.as_str());
    }

    /// Second phase: the start call has succeeded, and the pending file becomes a file
    /// of the session. Tells whether a file with this hash was pending.
    pub fn initialize_file(
        &mut self,
        file_hash: &str,
        file_key: String,
        upload_id: String,
        part_size: u64,
        total_parts: u32,
    ) -> (r: bool)
        requires
            old(self).wf(),
        ensures
            final(self).wf(),
            r == holds(old(self)@.pending_files, file_hash@),
            final(self)@ == old(self)@.initialized(
                file_hash@,
                file_key@,
                upload_id@,
                part_size,
                total_parts,
            ),
    {
        let pending = match self.pending_files.remove(file_hash) {
            Some(p) => p,
            None => {
                return false;
            },
        };
        let mut entry = FileEntry::new(
            file_key,
            file_hash.to_string(),
            pending.transfer_id,
            pending.file_path,
            pending.file_name,
            pending.file_size,
            pending.user_params,
        );
        entry.upload_id = Some(upload_id);
        entry.part_size = Some(part_size);
        entry.total_parts = total_parts;
        self.add_file(entry);
        true
    }

    /// Picks the file to upload next.
    pub fn next_pending_file(&mut self) -> (r: Option<String>)
        requires
            old(self).wf(),
        ensures
            final(self).wf(),
            text_opt(r) == old(self)@.next_pending().0,
            final(self)@ == old(self)@.next_pending().1,
    {
        if let Some(id) = &self.current_transfer_id {
            if let Some(key) = self.next_pending_in_transfer(id.as_str()) {
                return Some(key);
            }
        }
        let n: usize = transfers_len(&self.transfers);
        let mut i: usize = 0;
        while i < n
            invariant
                *self == *old(self),
                self.wf(),
                n == self@.transfers.len(),
                i <= n,
                self@.current_transfer_id is Some ==> self@.waiting_in(self@.current_transfer_id->0) is None,
                self@.waiting_transfer(0) == self@.waiting_transfer(i as int),
            decreases n - i,
        {
            if let Some(p) = transfers_at(&self.transfers, i) {
                let id = p.0.clone();
                if let Some(key) = self.next_pending_in_transfer(id.as_str()) {
                    self.current_transfer_id = Some(id);
                    return Some(key);
                }
            }
            i += 1;
        }
        None
    }

    fn next_pending_in_transfer(&self, transfer_id: &str) -> (r: Option<String>)
        requires
            self.wf(),
        ensures
            text_opt(r) == self@.waiting_in(transfer_id@),
    {
        let transfer = match transfers_get(&self.transfers, transfer_id) {
            Some(t) => t,
            None => {
                return None;
            },
        };
        let ghost keys = transfer@.file_keys;
        let mut i: usize = 0;
        assert(keys.skip(0) =~= keys);
        while i < transfer.file_keys.len()
            invariant
                self.wf(),
                i <= keys.len(),
                keys == texts(transfer.file_keys@),
                lookup(self@.transfers, transfer_id@) == Some(transfer@),
                first_waiting(self@.files, keys) == first_waiting(self@.files, keys.skip(i as int)),
            decreases keys.len() - i,
        {
            assert(keys.skip(i as int)[0] == keys[i as int]);
            assert(keys.skip(i as int).skip(1) =~= keys.skip(i + 1));
            let key = &transfer.file_keys[i];
            if let Some(entry) = self.files.get(key.as_str()) {
                if matches!(
                    entry.state,
                    UploadState::NotStarted | UploadState::Initialized | UploadState::Failed
                        | UploadState::Paused
                ) {
                    return Some(key.clone());
                }
            }
            i += 1;
        }
        None
    }

    /// Moves a file to another state.
    pub fn mark_file_state(&mut self, file_key: &str, state: UploadState)
        requires
            old(self).wf(),
        ensures
            final(self).wf(),
            final(self)@ == old(self)@.marked(file_key@, state),
    {
        if let Some(entry) = self.files.get_mut(file_key) {
            entry.state = state;
        }
        self.recompute_global_state();
    }

    /// Notes what the start call has returned.
    pub fn set_upload_info(
        &mut self,
        file_key: &str,
        upload_id: String,
        part_size: u64,
        total_parts: u32,
    )
        requires
            old(self).wf(),
        ensures
            final(self).wf(),
            final(self)@ == old(self)@.with_file(
                file_key@,
                |f: FileView|
                    FileView {
                        upload_id: Some(upload_id@),
                        part_size: Some(part_size),
                        total_parts,
                        ..f
                    },
            ),
    {
        if let Some(entry) = self.files.get_mut(file_key) {
            entry.upload_id = Some(upload_id);
            entry.part_size = Some(part_size);
            entry.total_parts = total_parts;
        }
    }

    pub fn run_version(&self, file_key: &str) -> (r: Option<u64>)
        requires
            self.wf(),
        ensures
            r == self@.run_of(file_key@),
    {
        match self.files.get(file_key) {
            Some(entry) => Some(entry.run_version),
            None => None,
        }
    }

    /// Begins a new run of the file; runs begun before are superseded.
    pub fn bump_run_version(&mut self, file_key: &str) -> (r: Option<u64>)
        requires
            old(self).wf(),
        ensures
            final(self).wf(),
            final(self)@ == old(self)@.with_file(file_key@, |f: FileView| bumped(f)),
            r == (match lookup(old(self)@.files, file_key@) {
                Some(f) => Some(bumped(f).run_version),
                None => None,
            }),
    {
        match self.files.get_mut(file_key) {
            Some(entry) => {
                let v: u64 = entry.run_version.saturating_add(1);
                entry.run_version = v;
                Some(v)
            },
            None => None,
        }
    }

    /// Notes how many bytes of the file are stored, at most its size.
    pub fn set_file_uploaded_bytes(&mut self, file_key: &str, uploaded_bytes: u64)
        requires
            old(self).wf(),
        ensures
            final(self).wf(),
            final(self)@ == old(self)@.with_file(
                file_key@,
                |f: FileView|
                    FileView {
                        uploaded_bytes: if uploaded_bytes <= f.total_bytes {
                            uploaded_bytes
                        } else {
                            f.total_bytes
                        },
                        ..f
                    },
            ),
    {
        if let Some(entry) = self.files.get_mut(file_key) {
            entry.uploaded_bytes = if uploaded_bytes <= entry.total_bytes {
                uploaded_bytes
            } else {
                entry.total_bytes
            };
        }
    }

    /// Whether the counts of a file stay in range with this part confirmed.
    pub fn accepts_chunk(&self, file_key: &str, part_number: u32, size: u64) -> (r: bool)
        requires
            self.wf(),
        ensures
            r == chunk_addable(self@, file_key@, part_number, size),
    {
        match self.files.get(file_key) {
            Some(f) => {
                is_confirmed(&f.completed_chunk_etags, part_number) || (f.completed_parts < u32::MAX
                    && f.uploaded_bytes.checked_add(size).is_some())
            },
            None => true,
        }
    }

    /// Notes that a part is stored under `etag`. A part counts once.
    pub fn complete_chunk(&mut self, file_key: &str, part_number: u32, etag: String, size: u64)
        requires
            old(self).wf(),
            chunk_addable(old(self)@, file_key@, part_number, size),
        ensures
            final(self).wf(),
            final(self)@ == old(self)@.with_file(
                file_key@,
                |f: FileView| chunk_completed(f, part_number, etag@, size),
            ),
    {
        if let Some(entry) = self.files.get_mut(file_key) {
            let ghost f0 = (*entry)@;
            if !is_confirmed(&entry.completed_chunk_etags, part_number) {
                entry.completed_chunk_etags.push((part_number, etag));
                assert(etags(entry.completed_chunk_etags@) =~= f0.completed_chunk_etags.push((part_number, etag@)));
                entry.completed_parts = entry.completed_parts + 1;
                let sum: u64 = entry.uploaded_bytes + size;
                entry.uploaded_bytes = if sum <= entry.total_bytes {
                    sum
                } else {
                    entry.total_bytes
                };
            }
        }
    }

    /// Strikes `key` from every transfer.
    fn strike(&mut self, key: &str)
        requires
            old(self).wf(),
        ensures
            final(self).wf(),
            final(self)@ == (SessionView {
                transfers: struck(old(self)@.transfers, key@),
                ..old(self)@
            }),
    {
        let ghost before = self@;
        let n: usize = transfers_len(&self.transfers);
        let mut i: usize = 0;
        while i < n
            invariant
                old(self).wf(),
                before == old(self)@,
                n == before.transfers.len(),
                self@.transfers.len() == n,
                i <= n,
                self.files_needing_provision.wf(),
                self@ == (SessionView { transfers: self@.transfers, ..before }),
                forall|j: int| 0 <= j < i ==> #[trigger] self@.transfers[j] == struck(before.transfers, key@)[j],
                forall|j: int| i <= j < n ==> #[trigger] self@.transfers[j] == before.transfers[j],
            decreases n - i,
        {
            if let Some(t) = transfers_at_mut(&mut self.transfers, i) {
                let kept = other_keys(&t.file_keys, key);
                t.file_keys = kept;
            }
            i += 1;
        }
        assert(self@.transfers =~= struck(before.transfers, key@));
    }

    /// Removes a file from the session.
    pub fn cancel_file(&mut self, file_key: &str)
        requires
            old(self).wf(),
        ensures
            final(self).wf(),
            final(self)@ == old(self)@.without_file(file_key@),
    {
        proof {
            lemma_keyed_without(self@.files, file_key@);
        }
        if let Some(entry) = self.files.remove(file_key) {
            let _ = self.hash_to_key.remove(entry.file_hash.as_str());
            let _ = self.files_needing_provision.remove(entry.file_hash.as_str());
        }
        self.strike(file_key);
        self.recompute_global_state();
    }

    /// Removes the file with this hash, whether it is pending or registered.
    pub fn cancel_file_by_hash(&mut self, file_hash: &str)
        requires
            old(self).wf(),
        ensures
            final(self).wf(),
            final(self)@ == old(self)@.without_hash(file_hash@),
    {
        let _ = self.pending_files.remove(file_hash);
        let _ = self.files_needing_provision.remove(file_hash);
        if let Some(key) = self.hash_to_key.remove(file_hash) {
            proof {
                lemma_keyed_without(self@.files, key@);
            }
            let _ = self.files.remove(key.as_str());
            self.strike(key.as_str());
        }
        self.recompute_global_state();
    }

    /// Removes the pending files of a transfer.
    fn drop_pending(&mut self, transfer_id: &str)
        requires
            old(self).wf(),
        ensures
            final(self).wf(),
            final(self)@ == (SessionView {
                pending_files: old(self)@.pending_files.filter(
                    |p: (Seq<char>, PendingView)| p.1.transfer_id != transfer_id@,
                ),
                ..old(self)@
            }),
    {
        let ghost before = self@.pending_files;
        let ghost other = |p: (Seq<char>, PendingView)| p.1.transfer_id != transfer_id@;
        let ghost mut k: int = 0;
        let mut i: usize = 0;
        assert(before.take(0).filter(other) =~= Seq::empty()) by {
            reveal(Seq::filter);
        }
        while i < self.pending_files.len()
            invariant
                old(self).wf(),
                before == old(self)@.pending_files,
                0 <= k <= before.len(),
                other == (|p: (Seq<char>, PendingView)| p.1.transfer_id != transfer_id@),
                i == before.take(k).filter(other).len(),
                self@ == (SessionView {
                    pending_files: before.take(k).filter(other) + before.skip(k),
                    ..old(self)@
                }),
                self.files_needing_provision.wf(),
            decreases before.len() - k,
        {
            let ghost kept = before.take(k).filter(other);
            assert(self@.pending_files[i as int] == before[k]);
            proof {
                assert(before.take(k + 1) =~= before.take(k).push(before[k]));
                before.take(k).lemma_filter_push(before[k], other);
            }
            if same_text(self.pending_files.value_at(i).transfer_id.as_str(), transfer_id) {
                let _ = self.pending_files.remove_at(i);
                assert(self@.pending_files =~= kept + before.skip(k + 1));
            } else {
                i += 1;
                assert(self@.pending_files =~= kept.push(before[k]) + before.skip(k + 1));
            }
            proof {
                k = k + 1;
            }
        }
        proof {
            assert(k == before.len());
            assert(before.take(k) =~= before);
            assert(self@.pending_files =~= before.filter(other));
            lemma_filter_unique(before, other);
        }
    }

    /// Removes the files under `keys`.
    fn drop_files(&mut self, keys: &Vec<String>)
        requires
            old(self).wf(),
        ensures
            final(self).wf(),
            final(self)@ == old(self)@.without_keys(texts(keys@)),
    {
        let ghost all = texts(keys@);
        let ghost before = self@;
        proof {
            lemma_without_no_keys(before);
            assert(all.take(0) =~= Seq::empty());
        }
        let mut i: usize = 0;
        while i < keys.len()
            invariant
                all == texts(keys@),
                i <= keys@.len(),
                unique(before.files),
                unique(before.hash_to_key),
                self.wf(),
                self@ == before.without_keys(all.take(i as int)),
            decreases keys@.len() - i,
        {
            let key = &keys[i];
            proof {
                lemma_without_key(before, all.take(i as int), key@);
                lemma_keyed_without(self@.files, key@);
                assert(all.take(i + 1) =~= all.take(i as int).push(key@));
            }
            if let Some(entry) = self.files.remove(key.as_str()) {
                let _ = self.hash_to_key.remove(entry.file_hash.as_str());
                let _ = self.files_needing_provision.remove(entry.file_hash.as_str());
            }
            i += 1;
        }
        assert(all.take(all.len() as int) =~= all);
    }

    /// Removes a transfer with all its files.
    pub fn cancel_transfer(&mut self, transfer_id: &str)
        requires
            old(self).wf(),
        ensures
            final(self).wf(),
            final(self)@ == old(self)@.without_transfer(transfer_id@),
    {
        self.drop_pending(transfer_id);
        let keys: Option<Vec<String>> = match transfers_get(&self.transfers, transfer_id) {
            Some(t) => Some(clone_keys(&t.file_keys)),
            None => None,
        };
        if let Some(keys) = &keys {
            self.drop_files(keys);
        }
        proof {
            lemma_without(self@.transfers, transfer_id@, transfer_id@);
        }
        transfers_remove(&mut self.transfers, transfer_id);
        let is_current = match &self.current_transfer_id {
            Some(id) => same_text(id.as_str(), transfer_id),
            None => false,
        };
        if is_current {
            self.current_transfer_id = None;
        }
        self.recompute_global_state();
    }

    /// Empties the session; only the templates stay.
    pub fn cancel_all(&mut self)
        ensures
            final(self).wf(),
            final(self)@ == old(self)@.emptied(),
    {
        self.files.clear();
        self.hash_to_key.clear();
        transfers_clear(&mut self.transfers);
        self.pending_files.clear();
        self.files_needing_provision.clear();
        self.current_transfer_id = None;
        self.global_state = GlobalUploaderState::NotStarted;
    }

    /// Pauses every file that runs.
    pub fn pause_all(&mut self)
        requires
            old(self).wf(),
        ensures
            final(self).wf(),
            final(self)@ == old(self)@.paused(),
    {
        self.stop_running_files();
        self.recompute_global_state();
    }
}

} // verus!
