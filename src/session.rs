//! The backup session: the decisions taken when a session opens, and the
//! per-connection state machine that accepts chunk registrations, index
//! writers, appends, closes, blobs and the final `finish`.

use vstd::prelude::*;

use crate::index::{
    digest_eq, dynamic_end, entry_digests, fixed_chunk_count, index_csum_spec,
    views_csum_spec, Digest, DynamicIndexWriter, FixedIndexReader, FixedIndexWriter, IndexError,
};
use crate::text::{ends_with, same_text};
use crate::bytes::range_equals;
use vstd::string::StringSliceAdditionalSpecFns;

verus! {

/// Error raised by a backup session.
#[derive(Debug, Clone, Copy, PartialEq, Eq, Structural)]
pub enum SessionError {
    /// The upgrade asked for another protocol.
    WrongProtocol,
    /// A benchmark on a group other than `host/benchmark`, or that group
    /// without the benchmark flag.
    BenchmarkMismatch,
    /// The caller does not own the group.
    NotOwner,
    /// The backup time is not after the last snapshot of the group.
    TimeNotAfterLast,
    /// The snapshot directory exists already.
    SnapshotExists,
    /// The session has finished; nothing more is accepted.
    Finished,
    /// `finish` was never called successfully.
    Unfinished,
    /// An archive or blob name with the wrong extension.
    WrongExtension,
    /// No open writer of that id.
    UnknownWriter,
    /// A writer of the other kind.
    WrongWriterKind,
    /// A chunk that was not registered in this session.
    UnknownChunk,
    /// Digest and offset lists of different lengths.
    LengthMismatch,
    /// An incremental index without a previous snapshot index.
    NoPreviousBackup,
    /// A checksum that differs from the one computed here.
    CsumMismatch,
    /// A chunk count that differs from the one seen here.
    CountMismatch,
    /// A size that differs from the one seen here.
    SizeMismatch,
    /// A chunk larger than the fixed chunk size.
    LargeChunk,
    /// More than one chunk smaller than the fixed chunk size.
    MultipleEndChunks,
    /// A blob whose length is not the announced one.
    BlobSizeMismatch,
    /// Index writers still open at `finish`.
    OpenWriters,
    /// No manifest blob at `finish`.
    MissingManifest,
    /// The manifest's signature does not verify.
    BadSignature,
    /// The manifest does not list exactly the archives and blobs uploaded.
    ManifestMismatch,
    /// A fixed index with chunk size zero.
    BadChunkSize,
    /// An error of the index writer.
    Index(IndexError),
}

/// The protocol name carried in the upgrade request.
pub const PROXMOX_BACKUP_PROTOCOL_ID_V1: &'static str = "proxmox-backup-protocol-v1";

/// Chunk size of fixed indices written by backup clients.
pub const FIXED_CHUNK_SIZE: u64 = 4194304;

/// Name of the manifest blob of a snapshot.
pub const MANIFEST_BLOB_NAME: &'static str = "index.json.blob";

/// What kind of worker runs a session.
#[derive(Debug, Clone, Copy, PartialEq, Eq, Structural)]
pub enum WorkerKind {
    Backup,
    Benchmark,
}

/// The protocol and group checks made when a session opens: the protocol
/// must be `proxmox-backup-protocol-v1`; the group `host/benchmark` runs
/// exactly the benchmark sessions.
pub open spec fn start_spec(protocol: Seq<char>, backup_type: Seq<char>, backup_id: Seq<char>, benchmark: bool) -> Result<WorkerKind, SessionError> {
    if protocol != "proxmox-backup-protocol-v1"@ {
        Err(SessionError::WrongProtocol)
    } else if backup_type == "host"@ && backup_id == "benchmark"@ {
        if benchmark {
            Ok(WorkerKind::Benchmark)
        } else {
            Err(SessionError::BenchmarkMismatch)
        }
    } else if benchmark {
        Err(SessionError::BenchmarkMismatch)
    } else {
        Ok(WorkerKind::Backup)
    }
}

/// Check the protocol and the benchmark flag of a new session.
pub fn check_backup_start(protocol: &str, backup_type: &str, backup_id: &str, benchmark: bool) -> (r: Result<WorkerKind, SessionError>)
    ensures
        r == start_spec(protocol@, backup_type@, backup_id@, benchmark),
{
    if !same_text(protocol, "proxmox-backup-protocol-v1") {
        return Err(SessionError::WrongProtocol);
    }
    if same_text(backup_type, "host") && same_text(backup_id, "benchmark") {
        if !benchmark {
            return Err(SessionError::BenchmarkMismatch);
        }
        Ok(WorkerKind::Benchmark)
    } else {
        if benchmark {
            return Err(SessionError::BenchmarkMismatch);
        }
        Ok(WorkerKind::Backup)
    }
}

/// The checks made under the group lock: only the owner may add snapshots
/// (benchmarks excepted), the new backup time must be after the last
/// snapshot's, and the snapshot directory must be new.
pub open spec fn snapshot_spec(kind: WorkerKind, is_owner: bool, last_time: Option<i64>, backup_time: i64, dir_is_new: bool) -> Result<(), SessionError> {
    if !is_owner && kind != WorkerKind::Benchmark {
        Err(SessionError::NotOwner)
    } else if last_time is Some && backup_time <= last_time->Some_0 {
        Err(SessionError::TimeNotAfterLast)
    } else if !dir_is_new {
        Err(SessionError::SnapshotExists)
    } else {
        Ok(())
    }
}

/// Check owner, backup time and snapshot directory of a new session.
pub fn check_new_snapshot(kind: WorkerKind, is_owner: bool, last_time: Option<i64>, backup_time: i64, dir_is_new: bool) -> (r: Result<(), SessionError>)
    ensures
        r == snapshot_spec(kind, is_owner, last_time, backup_time, dir_is_new),
{
    if !is_owner && kind != WorkerKind::Benchmark {
        return Err(SessionError::NotOwner);
    }
    if let Some(last) = last_time {
        if backup_time <= last {
            return Err(SessionError::TimeNotAfterLast);
        }
    }
    if !dir_is_new {
        return Err(SessionError::SnapshotExists);
    }
    Ok(())
}

pub open spec fn strictly_increasing(ts: Seq<i64>) -> bool {
    forall|i: int, j: int| 0 <= i < j < ts.len() ==> ts[i] < ts[j]
}

/// Snapshots of a group are committed in strictly increasing time order:
/// where the committed times so far increase, a session admitted with the
/// last of them as the previous snapshot adds a later time.
pub proof fn lemma_backup_times_increase(times: Seq<i64>, kind: WorkerKind, is_owner: bool, backup_time: i64)
    requires
        strictly_increasing(times),
        snapshot_spec(kind, is_owner, if times.len() == 0 { None } else { Some(times.last()) }, backup_time, true) is Ok,
    ensures
        strictly_increasing(times.push(backup_time)),
{
    let t = times.push(backup_time);
    assert forall|i: int, j: int| 0 <= i < j < t.len() implies t[i] < t[j] by {
        if j == times.len() {
            if i < times.len() - 1 {
                assert(times[i] < times[times.len() - 1]);
            }
        } else {
            assert(t[i] == times[i] && t[j] == times[j]);
        }
    }
}

/// What becomes of a session's snapshot when its connection ends.
#[derive(Debug, Clone, Copy, PartialEq, Eq, Structural)]
pub struct SessionOutcome {
    /// Whether the snapshot directory stays.
    pub keep_snapshot: bool,
    /// Whether the worker task ends successfully.
    pub success: bool,
}

/// The end of a session: a benchmark is always removed and succeeds; a
/// finished backup is kept and succeeds (whatever became of the connection
/// afterwards); an unfinished one is removed and fails.
pub fn session_outcome(benchmark: bool, finished: bool) -> (r: SessionOutcome)
    ensures
        benchmark ==> r == (SessionOutcome { keep_snapshot: false, success: true }),
        !benchmark ==> r == (SessionOutcome { keep_snapshot: finished, success: finished }),
{
    if benchmark {
        return SessionOutcome { keep_snapshot: false, success: true };
    }
    SessionOutcome { keep_snapshot: finished, success: finished }
}

/// The size registered for a chunk in the session, the latest registration
/// winning.
pub open spec fn known_size(s: Seq<(Digest, u32)>, d: Seq<u8>) -> Option<u32>
    decreases s.len(),
{
    if s.len() == 0 {
        None
    } else if s.last().0@ == d {
        Some(s.last().1)
    } else {
        known_size(s.drop_last(), d)
    }
}

/// The index an open writer fills.
pub enum WriterIndex {
    Fixed(FixedIndexWriter),
    Dynamic(DynamicIndexWriter),
}

/// A writer's index as plain values: whether it is fixed; for a fixed
/// index its size, chunk size, slots and written marks; for a dynamic one
/// its entries.
pub type IndexView = (bool, u64, u64, Seq<Digest>, Seq<bool>, Seq<(u64, Digest)>);

pub open spec fn index_view(i: WriterIndex) -> IndexView {
    match i {
        WriterIndex::Fixed(w) => (
            true,
            w.spec_size(),
            w.spec_chunk_size(),
            w.spec_digests(),
            w.spec_written(),
            Seq::empty(),
        ),
        WriterIndex::Dynamic(w) => (false, 0, 0, Seq::empty(), Seq::empty(), w.spec_entries()),
    }
}

/// An index writer of a session.
pub struct IndexWriterEntry {
    /// The archive name.
    pub name: String,
    pub index: WriterIndex,
    /// Whether a fixed index started from the previous snapshot's digests.
    pub incremental: bool,
    /// Number of chunks appended.
    pub chunk_count: u64,
    /// Number of chunks smaller than the fixed chunk size registered.
    pub small_chunk_count: u64,
    pub closed: bool,
}

/// A writer as plain values: name, index, incremental flag, appended
/// chunk count, small chunk count, closed flag.
pub type EntryView = (Seq<char>, IndexView, bool, u64, u64, bool);

pub open spec fn entry_view(e: IndexWriterEntry) -> EntryView {
    (e.name@, index_view(e.index), e.incremental, e.chunk_count, e.small_chunk_count, e.closed)
}

pub open spec fn writers_view(ws: Seq<IndexWriterEntry>) -> Seq<EntryView> {
    ws.map_values(|e: IndexWriterEntry| entry_view(e))
}

pub open spec fn entry_wf(e: IndexWriterEntry) -> bool {
    match e.index {
        WriterIndex::Fixed(w) => w.wf(),
        WriterIndex::Dynamic(_) => true,
    }
}

fn duplicate_index(i: &WriterIndex) -> (r: WriterIndex)
    ensures
        index_view(r) == index_view(*i),
        entry_wf_index(*i) ==> entry_wf_index(r),
{
    match i {
        WriterIndex::Fixed(w) => WriterIndex::Fixed(w.duplicate()),
        WriterIndex::Dynamic(w) => WriterIndex::Dynamic(w.duplicate()),
    }
}

pub open spec fn entry_wf_index(i: WriterIndex) -> bool {
    match i {
        WriterIndex::Fixed(w) => w.wf(),
        WriterIndex::Dynamic(_) => true,
    }
}

/// One step of a fixed append: the chunk of `len` bytes at `offset`
/// lies in the file, starts on a chunk boundary, is a full chunk or the
/// last one, and fills a slot not written before.
pub open spec fn fixed_step_ok(ws: Seq<bool>, size: u64, cs: u64, offset: u64, len: u64) -> bool {
    let pos = offset as int / cs as int;
    &&& offset as int % cs as int == 0
    &&& pos < ws.len()
    &&& offset + len <= size
    &&& (len == cs || offset + len == size)
    &&& !ws[pos]
}

/// The slots after appending the first `n` chunks of a list, or `None`
/// where one of them is unknown or does not fit.
pub open spec fn fixed_fold(
    ds: Seq<Digest>,
    ws: Seq<bool>,
    size: u64,
    cs: u64,
    known: Seq<(Digest, u32)>,
    digests: Seq<Digest>,
    offsets: Seq<u64>,
    n: int,
) -> Option<(Seq<Digest>, Seq<bool>)>
    decreases n,
{
    if n <= 0 {
        Some((ds, ws))
    } else {
        match fixed_fold(ds, ws, size, cs, known, digests, offsets, n - 1) {
            None => None,
            Some((d1, w1)) => match known_size(known, digests[n - 1]@) {
                None => None,
                Some(sz) => if fixed_step_ok(w1, size, cs, offsets[n - 1], sz as u64) {
                    let pos = offsets[n - 1] as int / cs as int;
                    Some((d1.update(pos, digests[n - 1]), w1.update(pos, true)))
                } else {
                    None
                },
            },
        }
    }
}

/// The entries after appending the first `n` chunks of a list to a
/// dynamic index: each must start where the previous one ended.
pub open spec fn dynamic_fold(
    es: Seq<(u64, Digest)>,
    known: Seq<(Digest, u32)>,
    digests: Seq<Digest>,
    offsets: Seq<u64>,
    n: int,
) -> Option<Seq<(u64, Digest)>>
    decreases n,
{
    if n <= 0 {
        Some(es)
    } else {
        match dynamic_fold(es, known, digests, offsets, n - 1) {
            None => None,
            Some(e1) => match known_size(known, digests[n - 1]@) {
                None => None,
                Some(sz) => {
                    let off = offsets[n - 1];
                    if off == dynamic_end(e1) && sz > 0 && off + sz <= u64::MAX {
                        Some(e1.push(((off + sz) as u64, digests[n - 1])))
                    } else {
                        None
                    }
                },
            },
        }
    }
}

/// The lower-case hexadecimal digit for `v < 16`, as an ASCII byte.
pub open spec fn lower_hex_digit(v: u8) -> u8 {
    if v < 10 {
        (v + 48) as u8
    } else {
        (v + 87) as u8
    }
}

/// A digest as 64 lower-case hexadecimal digits.
pub open spec fn lower_hex_spec(d: Seq<u8>) -> Seq<u8> {
    Seq::new(
        64,
        |i: int|
            if i % 2 == 0 {
                lower_hex_digit(d[i / 2] / 16)
            } else {
                lower_hex_digit(d[i / 2] % 16)
            },
    )
}

fn lower_hex_digit_exec(v: u8) -> (r: u8)
    requires
        v < 16,
    ensures
        r == lower_hex_digit(v),
{
    if v < 10 {
        v + 48
    } else {
        v + 87
    }
}

/// The digest as 64 lower-case hexadecimal digits.
pub fn digest_to_hex(d: &Digest) -> (r: Vec<u8>)
    ensures
        r@ == lower_hex_spec(d@),
{
    let mut r: Vec<u8> = Vec::new();
    let mut i: usize = 0;
    while i < 32
        invariant
            0 <= i <= 32,
            d@.len() == 32,
            r@.len() == 2 * i,
            forall|j: int| 0 <= j < 2 * i ==> #[trigger] r@[j] == lower_hex_spec(d@)[j],
        decreases 32 - i,
    {
        r.push(lower_hex_digit_exec(d[i] / 16));
        r.push(lower_hex_digit_exec(d[i] % 16));
        i = i + 1;
    }
    assert(r@ =~= lower_hex_spec(d@));
    r
}

/// The state of one backup session.
pub struct BackupSession {
    writers: Vec<IndexWriterEntry>,
    known_chunks: Vec<(Digest, u32)>,
    blobs: Vec<String>,
    finished: bool,
}

/// Whether the writer of id `wid` (ids count from one) exists and is open.
pub open spec fn open_writer(ws: Seq<EntryView>, wid: usize) -> bool {
    1 <= wid <= ws.len() && !ws[wid - 1].5
}

impl BackupSession {
    pub closed spec fn spec_writers(&self) -> Seq<EntryView> {
        writers_view(self.writers@)
    }

    pub closed spec fn spec_known(&self) -> Seq<(Digest, u32)> {
        self.known_chunks@
    }

    pub closed spec fn spec_blobs(&self) -> Seq<Seq<char>> {
        self.blobs@.map_values(|b: String| b@)
    }

    pub closed spec fn spec_finished(&self) -> bool {
        self.finished
    }

    pub closed spec fn wf(&self) -> bool {
        forall|i: int| 0 <= i < self.writers@.len() ==> entry_wf(#[trigger] self.writers@[i])
    }

    /// A new session: no writers, chunks or blobs, not finished.
    pub fn new() -> (r: Self)
        ensures
            r.wf(),
            r.spec_writers().len() == 0,
            r.spec_known().len() == 0,
            r.spec_blobs().len() == 0,
            !r.spec_finished(),
    {
        let r = BackupSession {
            writers: Vec::new(),
            known_chunks: Vec::new(),
            blobs: Vec::new(),
            finished: false,
        };
        assert(r.spec_blobs() =~= Seq::<Seq<char>>::empty());
        assert(r.spec_writers() =~= Seq::<EntryView>::empty());
        r
    }

    /// Whether the session has finished.
    pub fn is_finished(&self) -> (r: bool)
        ensures
            r == self.spec_finished(),
    {
        self.finished
    }

    /// Succeed once the session has finished.
    pub fn ensure_finished(&self) -> (r: Result<(), SessionError>)
        ensures
            self.spec_finished() ==> r is Ok,
            !self.spec_finished() ==> r == Err::<(), SessionError>(SessionError::Unfinished),
    {
        if self.finished {
            Ok(())
        } else {
            Err(SessionError::Unfinished)
        }
    }

    /// The size registered for a chunk.
    pub fn lookup_chunk(&self, digest: &Digest) -> (r: Option<u32>)
        ensures
            r == known_size(self.spec_known(), digest@),
    {
        let mut i: usize = self.known_chunks.len();
        assert(self.known_chunks@.subrange(0, i as int) =~= self.known_chunks@);
        while i > 0
            invariant
                0 <= i <= self.known_chunks@.len(),
                known_size(self.known_chunks@, digest@) == known_size(
                    self.known_chunks@.subrange(0, i as int),
                    digest@,
                ),
            decreases i,
        {
            let ghost s = self.known_chunks@.subrange(0, i as int);
            assert(s.drop_last() =~= self.known_chunks@.subrange(0, i - 1));
            if digest_eq(&self.known_chunks[i - 1].0, digest) {
                return Some(self.known_chunks[i - 1].1);
            }
            i = i - 1;
        }
        None
    }

    /// Register a chunk the client may reference, with its size.
    pub fn register_chunk(&mut self, digest: &Digest, size: u32) -> (r: Result<(), SessionError>)
        requires
            old(self).wf(),
        ensures
            final(self).wf(),
            old(self).spec_finished() ==> r == Err::<(), SessionError>(SessionError::Finished)
                && *final(self) == *old(self),
            !old(self).spec_finished() ==> r is Ok && final(self).spec_known() == old(
                self,
            ).spec_known().push((*digest, size)) && final(self).spec_writers() == old(
                self,
            ).spec_writers() && final(self).spec_blobs() == old(self).spec_blobs()
                && !final(self).spec_finished(),
    {
        if self.finished {
            return Err(SessionError::Finished);
        }
        self.known_chunks.push((*digest, size));
        Ok(())
    }

    /// Register the chunks of an index of the previous snapshot (digest
    /// and byte length), so that the client may append them without
    /// uploading them again. Either all are registered or, on error, none.
    pub fn register_previous_chunks(&mut self, chunks: &[(Digest, u64)]) -> (r: Result<(), SessionError>)
        requires
            old(self).wf(),
        ensures
            final(self).wf(),
            ({
                let ok = !old(self).spec_finished() && forall|i: int| 0 <= i < chunks@.len() ==> (#[trigger] chunks@[i]).1 <= u32::MAX;
                &&& ok ==> r is Ok && final(self).spec_known() == old(self).spec_known() + chunks@.map_values(
                    |c: (Digest, u64)| (c.0, c.1 as u32),
                ) && final(self).spec_writers() == old(self).spec_writers() && final(self).spec_blobs() == old(
                    self,
                ).spec_blobs() && !final(self).spec_finished()
                &&& !ok ==> r is Err && *final(self) == *old(self)
            }),
    {
        if self.finished {
            return Err(SessionError::Finished);
        }
        let mut i: usize = 0;
        while i < chunks.len()
            invariant
                0 <= i <= chunks@.len(),
                *self == *old(self),
                old(self).wf(),
                !old(self).finished,
                forall|j: int| 0 <= j < i ==> (#[trigger] chunks@[j]).1 <= u32::MAX,
            decreases chunks@.len() - i,
        {
            if chunks[i].1 > u32::MAX as u64 {
                return Err(SessionError::LargeChunk);
            }
            i = i + 1;
        }
        let ghost k0 = self.known_chunks@;
        let mut k: usize = 0;
        while k < chunks.len()
            invariant
                0 <= k <= chunks@.len(),
                forall|j: int| 0 <= j < chunks@.len() ==> (#[trigger] chunks@[j]).1 <= u32::MAX,
                self.known_chunks@ == k0 + chunks@.subrange(0, k as int).map_values(|c: (Digest, u64)| (c.0, c.1 as u32)),
                self.writers@ == old(self).writers@,
                self.blobs@ == old(self).blobs@,
                self.finished == old(self).finished,
                !self.finished,
                old(self).wf(),
            decreases chunks@.len() - k,
        {
            self.known_chunks.push((chunks[k].0, chunks[k].1 as u32));
            assert(chunks@.subrange(0, k + 1).map_values(|c: (Digest, u64)| (c.0, c.1 as u32)) =~= chunks@.subrange(
                0,
                k as int,
            ).map_values(|c: (Digest, u64)| (c.0, c.1 as u32)).push((chunks@[k as int].0, chunks@[k as int].1 as u32)));
            k = k + 1;
        }
        assert(chunks@.subrange(0, k as int) =~= chunks@);
        Ok(())
    }

    /// Register a chunk uploaded for fixed writer `wid`. A chunk may not be
    /// larger than the fixed chunk size, and only one may be smaller.
    pub fn register_fixed_chunk(&mut self, wid: usize, digest: &Digest, size: u32) -> (r: Result<(), SessionError>)
        requires
            old(self).wf(),
        ensures
            old(self).spec_finished() ==> r == Err::<(), SessionError>(SessionError::Finished),
            !old(self).spec_finished() && !open_writer(old(self).spec_writers(), wid) ==> r == Err::<(), SessionError>(SessionError::UnknownWriter),
            !old(self).spec_finished() && open_writer(old(self).spec_writers(), wid) && !old(self).spec_writers()[wid - 1].1.0 ==> r == Err::<(), SessionError>(SessionError::WrongWriterKind),
            final(self).wf(),
            ({
                let ws = old(self).spec_writers();
                let ok = !old(self).spec_finished() && open_writer(ws, wid) && ws[wid - 1].1.0
                    && size <= ws[wid - 1].1.2 && (size == ws[wid - 1].1.2 || ws[wid - 1].4 == 0);
                let small = if size < ws[wid - 1].1.2 {
                    1u64
                } else {
                    ws[wid - 1].4
                };
                &&& ok ==> r is Ok && final(self).spec_known() == old(self).spec_known().push(
                    (*digest, size),
                ) && final(self).spec_blobs() == old(self).spec_blobs() && !final(self).spec_finished()
                    && final(self).spec_writers() == ws.update(
                    wid - 1,
                    (ws[wid - 1].0, ws[wid - 1].1, ws[wid - 1].2, ws[wid - 1].3, small, ws[wid - 1].5),
                )
                &&& !ok ==> r is Err && *final(self) == *old(self)
            }),
    {
        if self.finished {
            return Err(SessionError::Finished);
        }
        if wid == 0 || wid > self.writers.len() || self.writers[wid - 1].closed {
            return Err(SessionError::UnknownWriter);
        }
        let idx = wid - 1;
        let chunk_size = match &self.writers[idx].index {
            WriterIndex::Fixed(w) => w.chunk_size_of(),
            WriterIndex::Dynamic(_) => return Err(SessionError::WrongWriterKind),
        };
        if size as u64 > chunk_size {
            return Err(SessionError::LargeChunk);
        }
        if (size as u64) < chunk_size && self.writers[idx].small_chunk_count > 0 {
            return Err(SessionError::MultipleEndChunks);
        }
        let small = if (size as u64) < chunk_size {
            1
        } else {
            self.writers[idx].small_chunk_count
        };
        let e = &self.writers[idx];
        let e2 = IndexWriterEntry {
            name: e.name.clone(),
            index: duplicate_index(&e.index),
            incremental: e.incremental,
            chunk_count: e.chunk_count,
            small_chunk_count: small,
            closed: e.closed,
        };
        let ghost w0 = self.writers@;
        self.writers.set(idx, e2);
        proof {
            assert(writers_view(self.writers@) =~= writers_view(w0).update(
                idx as int,
                entry_view(e2),
            ));
        }
        self.known_chunks.push((*digest, size));
        Ok(())
    }

    /// Register a chunk uploaded for dynamic writer `wid`.
    pub fn register_dynamic_chunk(&mut self, wid: usize, digest: &Digest, size: u32) -> (r: Result<(), SessionError>)
        requires
            old(self).wf(),
        ensures
            old(self).spec_finished() ==> r == Err::<(), SessionError>(SessionError::Finished),
            !old(self).spec_finished() && !open_writer(old(self).spec_writers(), wid) ==> r == Err::<(), SessionError>(SessionError::UnknownWriter),
            !old(self).spec_finished() && open_writer(old(self).spec_writers(), wid) && old(self).spec_writers()[wid - 1].1.0 ==> r == Err::<(), SessionError>(SessionError::WrongWriterKind),
            final(self).wf(),
            ({
                let ws = old(self).spec_writers();
                let ok = !old(self).spec_finished() && open_writer(ws, wid) && !ws[wid - 1].1.0;
                &&& ok ==> r is Ok && final(self).spec_known() == old(self).spec_known().push(
                    (*digest, size),
                ) && final(self).spec_writers() == ws && final(self).spec_blobs() == old(
                    self,
                ).spec_blobs() && !final(self).spec_finished()
                &&& !ok ==> r is Err && *final(self) == *old(self)
            }),
    {
        if self.finished {
            return Err(SessionError::Finished);
        }
        if wid == 0 || wid > self.writers.len() || self.writers[wid - 1].closed {
            return Err(SessionError::UnknownWriter);
        }
        match &self.writers[wid - 1].index {
            WriterIndex::Dynamic(_) => {},
            WriterIndex::Fixed(_) => return Err(SessionError::WrongWriterKind),
        }
        self.known_chunks.push((*digest, size));
        Ok(())
    }

    /// Open a fixed index writer for archive `name` (`.fidx`) of `size`
    /// bytes in chunks of `chunk_size` bytes. With `reuse_csum` the index is incremental: `previous`, the
    /// same archive in the previous snapshot, must have that checksum (in
    /// lower-case hexadecimal), and its digests fill the slots. Returns
    /// the new writer id.
    pub fn create_fixed_index(
        &mut self,
        name: &str,
        size: u64,
        chunk_size: u64,
        reuse_csum: Option<&str>,
        previous: Option<&FixedIndexReader>,
    ) -> (r: Result<usize, SessionError>)
        requires
            old(self).wf(),
        ensures
            old(self).spec_finished() ==> r == Err::<usize, SessionError>(SessionError::Finished),
            final(self).wf(),
            ({
                let ws = old(self).spec_writers();
                let count = fixed_chunk_count(size as nat, chunk_size as nat);
                let reuse_ok = match reuse_csum {
                    None => true,
                    Some(c) => previous is Some && c.spec_bytes() == lower_hex_spec(
                        views_csum_spec(previous->Some_0.spec_digests()),
                    ) && previous->Some_0.spec_digests().len() == count,
                };
                let ok = !old(self).spec_finished() && chunk_size > 0 && name@.len() >= 5 && name@.subrange(
                    name@.len() - 5,
                    name@.len() as int,
                ) == ".fidx"@ && reuse_ok && count <= usize::MAX;
                &&& ok ==> r is Ok && r->Ok_0 == ws.len() + 1 && final(self).spec_writers().len()
                    == ws.len() + 1 && final(self).spec_writers().subrange(0, ws.len() as int) == ws
                    && ({
                    let e = final(self).spec_writers()[ws.len() as int];
                    &&& e.0 == name@
                    &&& e.1.0 && e.1.1 == size && e.1.2 == chunk_size
                    &&& e.1.4.len() == count
                    &&& forall|i: int| 0 <= i < count ==> !#[trigger] e.1.4[i]
                    &&& e.2 == reuse_csum is Some
                    &&& reuse_csum is Some ==> crate::index::dviews(e.1.3) == previous->Some_0.spec_digests()
                    &&& e.3 == 0 && e.4 == 0 && !e.5
                }) && final(self).spec_known() == old(self).spec_known() && final(self).spec_blobs()
                    == old(self).spec_blobs() && !final(self).spec_finished()
                &&& !ok ==> r is Err && *final(self) == *old(self)
            }),
    {
        if self.finished {
            return Err(SessionError::Finished);
        }
        proof {
            reveal_strlit(".fidx");
        }
        if !ends_with(name, ".fidx") {
            return Err(SessionError::WrongExtension);
        }
        if chunk_size == 0 {
            return Err(SessionError::BadChunkSize);
        }
        let mut writer = match FixedIndexWriter::new(size, chunk_size) {
            Ok(w) => w,
            Err(e) => return Err(SessionError::Index(e)),
        };
        let ghost w_init = writer;
        let incremental = match reuse_csum {
            None => false,
            Some(csum) => {
                let prev = match previous {
                    Some(p) => p,
                    None => return Err(SessionError::NoPreviousBackup),
                };
                let (old_csum, _) = prev.compute_csum();
                let hex = digest_to_hex(&old_csum);
                let given = csum.as_bytes();
                if given.len() != 64 || !range_equals(given, 0, hex.as_slice()) {
                    proof {
                        if given@ == hex@ {
                            assert(given@.subrange(0, 64) =~= given@);
                        }
                    }
                    return Err(SessionError::CsumMismatch);
                }
                assert(given@ =~= hex@) by {
                    assert(given@.subrange(0, 64) =~= given@);
                }
                let ds = prev.digest_list();
                proof {
                    assert(crate::index::dviews(ds@).len() == ds@.len());
                }
                match writer.clone_data_from(ds.as_slice()) {
                    Ok(()) => {},
                    Err(e) => return Err(SessionError::Index(e)),
                }
                true
            },
        };
        assert(writer.spec_written() == w_init.spec_written());
        let e = IndexWriterEntry {
            name: name.to_owned(),
            index: WriterIndex::Fixed(writer),
            incremental,
            chunk_count: 0,
            small_chunk_count: 0,
            closed: false,
        };
        let ghost w0 = self.writers@;
        self.writers.push(e);
        proof {
            assert(writers_view(self.writers@) =~= writers_view(w0).push(entry_view(e)));
            assert(writers_view(self.writers@).subrange(0, w0.len() as int) =~= writers_view(w0));
        }
        Ok(self.writers.len())
    }

    /// Open a dynamic index writer for archive `name` (`.didx`). Returns
    /// the new writer id.
    pub fn create_dynamic_index(&mut self, name: &str) -> (r: Result<usize, SessionError>)
        requires
            old(self).wf(),
        ensures
            old(self).spec_finished() ==> r == Err::<usize, SessionError>(SessionError::Finished),
            final(self).wf(),
            ({
                let ws = old(self).spec_writers();
                let ok = !old(self).spec_finished() && name@.len() >= 5 && name@.subrange(
                    name@.len() - 5,
                    name@.len() as int,
                ) == ".didx"@;
                &&& ok ==> r is Ok && r->Ok_0 == ws.len() + 1 && final(self).spec_writers() == ws.push(
                    (
                        name@,
                        (false, 0u64, 0u64, Seq::empty(), Seq::empty(), Seq::empty()),
                        false,
                        0u64,
                        0u64,
                        false,
                    ),
                ) && final(self).spec_known() == old(self).spec_known() && final(self).spec_blobs()
                    == old(self).spec_blobs() && !final(self).spec_finished()
                &&& !ok ==> r is Err && *final(self) == *old(self)
            }),
    {
        if self.finished {
            return Err(SessionError::Finished);
        }
        proof {
            reveal_strlit(".didx");
        }
        if !ends_with(name, ".didx") {
            return Err(SessionError::WrongExtension);
        }
        let w = DynamicIndexWriter::new();
        let e = IndexWriterEntry {
            name: name.to_owned(),
            index: WriterIndex::Dynamic(w),
            incremental: false,
            chunk_count: 0,
            small_chunk_count: 0,
            closed: false,
        };
        let ghost w0 = self.writers@;
        self.writers.push(e);
        proof {
            assert(w.spec_entries() =~= Seq::<(u64, Digest)>::empty());
            assert(writers_view(self.writers@) =~= writers_view(w0).push(entry_view(e)));
        }
        Ok(self.writers.len())
    }

    fn replace_entry(&mut self, idx: usize, e: IndexWriterEntry)
        requires
            idx < old(self).spec_writers().len(),
            old(self).wf(),
            entry_wf(e),
        ensures
            final(self).wf(),
            final(self).spec_writers() == old(self).spec_writers().update(idx as int, entry_view(e)),
            final(self).spec_known() == old(self).spec_known(),
            final(self).spec_blobs() == old(self).spec_blobs(),
            final(self).spec_finished() == old(self).spec_finished(),
    {
        let ghost w0 = self.writers@;
        self.writers.set(idx, e);
        proof {
            assert(writers_view(self.writers@) =~= writers_view(w0).update(idx as int, entry_view(e)));
        }
    }

    /// Append chunks to fixed writer `wid`: chunk `i` has digest
    /// `digests[i]`, a registered chunk, and starts at `offsets[i]`. Either
    /// all chunks are appended or, on error, none.
    pub fn fixed_append(&mut self, wid: usize, digests: &[Digest], offsets: &[u64]) -> (r: Result<(), SessionError>)
        requires
            old(self).wf(),
        ensures
            old(self).spec_finished() ==> r == Err::<(), SessionError>(SessionError::Finished),
            !old(self).spec_finished() && digests@.len() != offsets@.len() ==> r == Err::<(), SessionError>(SessionError::LengthMismatch),
            final(self).wf(),
            ({
                let ws = old(self).spec_writers();
                let n = digests@.len() as int;
                let pre = !old(self).spec_finished() && digests@.len() == offsets@.len() && open_writer(ws, wid)
                    && ws[wid - 1].1.0 && ws[wid - 1].3 + n <= u64::MAX;
                let e = ws[wid - 1];
                let fold = fixed_fold(e.1.3, e.1.4, e.1.1, e.1.2, old(self).spec_known(), digests@, offsets@, n);
                &&& (pre && fold is Some) ==> r is Ok && final(self).spec_writers() == ws.update(
                    wid - 1,
                    (e.0, (true, e.1.1, e.1.2, fold->Some_0.0, fold->Some_0.1, e.1.5), e.2, (e.3 + n) as u64, e.4, e.5),
                ) && final(self).spec_known() == old(self).spec_known() && final(self).spec_blobs()
                    == old(self).spec_blobs() && !final(self).spec_finished()
                &&& !(pre && fold is Some) ==> r is Err && *final(self) == *old(self)
                &&& (pre && exists|k: int| 0 <= k < n && #[trigger] fixed_unknown_at(e.1.3, e.1.4, e.1.1, e.1.2, old(self).spec_known(), digests@, offsets@, k))
                    ==> r == Err::<(), SessionError>(SessionError::UnknownChunk)
            }),
    {
        if self.finished {
            return Err(SessionError::Finished);
        }
        if digests.len() != offsets.len() {
            return Err(SessionError::LengthMismatch);
        }
        if wid == 0 || wid > self.writers.len() || self.writers[wid - 1].closed {
            return Err(SessionError::UnknownWriter);
        }
        let idx = wid - 1;
        let ghost e = writers_view(self.writers@)[idx as int];
        proof {
            assert(self.writers@[idx as int].closed == e.5);
        }
        let mut w = match &self.writers[idx].index {
            WriterIndex::Fixed(w) => w.duplicate(),
            WriterIndex::Dynamic(_) => return Err(SessionError::WrongWriterKind),
        };
        proof {
            assert(entry_wf(self.writers@[idx as int]));
        }
        let count = self.writers[idx].chunk_count;
        if digests.len() as u64 > u64::MAX - count {
            return Err(SessionError::CountMismatch);
        }
        let n = digests.len();
        let mut i: usize = 0;
        while i < n
            invariant
                0 <= i <= n,
                n == digests@.len(),
                n == offsets@.len(),
                w.wf(),
                w.spec_size() == e.1.1,
                w.spec_chunk_size() == e.1.2,
                e.1.2 > 0,
                e.1.3.len() == e.1.4.len(),
                fixed_fold(e.1.3, e.1.4, e.1.1, e.1.2, self.known_chunks@, digests@, offsets@, i as int)
                    == Some((w.spec_digests(), w.spec_written())),
                *self == *old(self),
                old(self).wf(),
                idx == wid - 1,
                1 <= wid <= old(self).writers@.len(),
                e == writers_view(old(self).writers@)[idx as int],
                !e.5,
                e.1.0,
                count == e.3,
                count + n <= u64::MAX,
                !old(self).finished,
            decreases n - i,
        {
            let size = match self.lookup_chunk(&digests[i]) {
                Some(s) => s,
                None => {
                    proof {
                        lemma_fixed_fold_stuck(e.1.3, e.1.4, e.1.1, e.1.2, self.known_chunks@, digests@, offsets@, i as int + 1, n as int);
                    }
                    return Err(SessionError::UnknownChunk);
                },
            };
            match w.add_chunk(offsets[i], size as u64, &digests[i]) {
                Ok(()) => {},
                Err(err) => {
                    proof {
                        lemma_fixed_fold_stuck(e.1.3, e.1.4, e.1.1, e.1.2, self.known_chunks@, digests@, offsets@, i as int + 1, n as int);
                        assert forall|k: int| 0 <= k < n implies !#[trigger] fixed_unknown_at(e.1.3, e.1.4, e.1.1, e.1.2, self.known_chunks@, digests@, offsets@, k) by {
                            if k < i {
                                lemma_fixed_fold_prefix(e.1.3, e.1.4, e.1.1, e.1.2, self.known_chunks@, digests@, offsets@, k + 1, i as int);
                            } else if k > i {
                                lemma_fixed_fold_stuck(e.1.3, e.1.4, e.1.1, e.1.2, self.known_chunks@, digests@, offsets@, i as int + 1, k);
                            }
                        }
                    }
                    return Err(SessionError::Index(err));
                },
            }
            i = i + 1;
        }
        proof {
            assert forall|k: int| 0 <= k < n implies !#[trigger] fixed_unknown_at(e.1.3, e.1.4, e.1.1, e.1.2, self.known_chunks@, digests@, offsets@, k) by {
                lemma_fixed_fold_prefix(e.1.3, e.1.4, e.1.1, e.1.2, self.known_chunks@, digests@, offsets@, k + 1, n as int);
            }
        }
        let old_e = &self.writers[idx];
        let e2 = IndexWriterEntry {
            name: old_e.name.clone(),
            index: WriterIndex::Fixed(w),
            incremental: old_e.incremental,
            chunk_count: count + n as u64,
            small_chunk_count: old_e.small_chunk_count,
            closed: old_e.closed,
        };
        self.replace_entry(idx, e2);
        Ok(())
    }

    /// Append chunks to dynamic writer `wid`: chunk `i` has digest
    /// `digests[i]`, a registered chunk, and starts at `offsets[i]`, where
    /// the previous chunk ended. Either all chunks are appended or, on
    /// error, none.
    pub fn dynamic_append(&mut self, wid: usize, digests: &[Digest], offsets: &[u64]) -> (r: Result<(), SessionError>)
        requires
            old(self).wf(),
        ensures
            old(self).spec_finished() ==> r == Err::<(), SessionError>(SessionError::Finished),
            !old(self).spec_finished() && digests@.len() != offsets@.len() ==> r == Err::<(), SessionError>(SessionError::LengthMismatch),
            final(self).wf(),
            ({
                let ws = old(self).spec_writers();
                let n = digests@.len() as int;
                let pre = !old(self).spec_finished() && digests@.len() == offsets@.len() && open_writer(ws, wid)
                    && !ws[wid - 1].1.0 && ws[wid - 1].3 + n <= u64::MAX;
                let e = ws[wid - 1];
                let fold = dynamic_fold(e.1.5, old(self).spec_known(), digests@, offsets@, n);
                &&& (pre && fold is Some) ==> r is Ok && final(self).spec_writers() == ws.update(
                    wid - 1,
                    (e.0, (false, e.1.1, e.1.2, e.1.3, e.1.4, fold->Some_0), e.2, (e.3 + n) as u64, e.4, e.5),
                ) && final(self).spec_known() == old(self).spec_known() && final(self).spec_blobs()
                    == old(self).spec_blobs() && !final(self).spec_finished()
                &&& !(pre && fold is Some) ==> r is Err && *final(self) == *old(self)
                &&& (pre && exists|k: int| 0 <= k < n && #[trigger] dynamic_unknown_at(e.1.5, old(self).spec_known(), digests@, offsets@, k))
                    ==> r == Err::<(), SessionError>(SessionError::UnknownChunk)
            }),
    {
        if self.finished {
            return Err(SessionError::Finished);
        }
        if digests.len() != offsets.len() {
            return Err(SessionError::LengthMismatch);
        }
        if wid == 0 || wid > self.writers.len() || self.writers[wid - 1].closed {
            return Err(SessionError::UnknownWriter);
        }
        let idx = wid - 1;
        let ghost e = writers_view(self.writers@)[idx as int];
        let mut w = match &self.writers[idx].index {
            WriterIndex::Dynamic(w) => w.duplicate(),
            WriterIndex::Fixed(_) => return Err(SessionError::WrongWriterKind),
        };
        let count = self.writers[idx].chunk_count;
        if digests.len() as u64 > u64::MAX - count {
            return Err(SessionError::CountMismatch);
        }
        let n = digests.len();
        let mut i: usize = 0;
        while i < n
            invariant
                0 <= i <= n,
                n == digests@.len(),
                n == offsets@.len(),
                dynamic_fold(e.1.5, self.known_chunks@, digests@, offsets@, i as int) == Some(w.spec_entries()),
                *self == *old(self),
                old(self).wf(),
                idx == wid - 1,
                1 <= wid <= old(self).writers@.len(),
                e == writers_view(old(self).writers@)[idx as int],
                !e.5,
                !e.1.0,
                count == e.3,
                count + n <= u64::MAX,
                !old(self).finished,
            decreases n - i,
        {
            let size = match self.lookup_chunk(&digests[i]) {
                Some(s) => s,
                None => {
                    proof {
                        lemma_dynamic_fold_stuck(e.1.5, self.known_chunks@, digests@, offsets@, i as int + 1, n as int);
                    }
                    return Err(SessionError::UnknownChunk);
                },
            };
            match w.add_chunk(offsets[i], size as u64, &digests[i]) {
                Ok(()) => {},
                Err(err) => {
                    proof {
                        lemma_dynamic_fold_stuck(e.1.5, self.known_chunks@, digests@, offsets@, i as int + 1, n as int);
                        assert forall|k: int| 0 <= k < n implies !#[trigger] dynamic_unknown_at(e.1.5, self.known_chunks@, digests@, offsets@, k) by {
                            if k < i {
                                lemma_dynamic_fold_prefix(e.1.5, self.known_chunks@, digests@, offsets@, k + 1, i as int);
                            } else if k > i {
                                lemma_dynamic_fold_stuck(e.1.5, self.known_chunks@, digests@, offsets@, i as int + 1, k);
                            }
                        }
                    }
                    return Err(SessionError::Index(err));
                },
            }
            i = i + 1;
        }
        proof {
            assert forall|k: int| 0 <= k < n implies !#[trigger] dynamic_unknown_at(e.1.5, self.known_chunks@, digests@, offsets@, k) by {
                lemma_dynamic_fold_prefix(e.1.5, self.known_chunks@, digests@, offsets@, k + 1, n as int);
            }
        }
        let old_e = &self.writers[idx];
        let e2 = IndexWriterEntry {
            name: old_e.name.clone(),
            index: WriterIndex::Dynamic(w),
            incremental: old_e.incremental,
            chunk_count: count + n as u64,
            small_chunk_count: old_e.small_chunk_count,
            closed: old_e.closed,
        };
        self.replace_entry(idx, e2);
        Ok(())
    }

    /// Close fixed writer `wid`. Unless the index is incremental, the
    /// client's chunk count must be the number appended and the slot count,
    /// its size the index size, and every slot must be written. The
    /// client's checksum must be the one computed over the slots.
    pub fn fixed_writer_close(&mut self, wid: usize, chunk_count: u64, size: u64, csum: &Digest) -> (r: Result<(), SessionError>)
        requires
            old(self).wf(),
        ensures
            old(self).spec_finished() ==> r == Err::<(), SessionError>(SessionError::Finished),
            !old(self).spec_finished() && !open_writer(old(self).spec_writers(), wid) ==> r == Err::<(), SessionError>(SessionError::UnknownWriter),
            !old(self).spec_finished() && open_writer(old(self).spec_writers(), wid) && !old(self).spec_writers()[wid - 1].1.0 ==> r == Err::<(), SessionError>(SessionError::WrongWriterKind),
            final(self).wf(),
            ({
                let ws = old(self).spec_writers();
                let e = ws[wid - 1];
                let ok = !old(self).spec_finished() && open_writer(ws, wid) && e.1.0 && (e.2 || (
                chunk_count == e.3 && chunk_count == e.1.3.len() && size == e.1.1 && forall|i: int|
                    0 <= i < e.1.4.len() ==> #[trigger] e.1.4[i])) && csum@ == index_csum_spec(e.1.3);
                &&& ok ==> r is Ok && final(self).spec_writers() == ws.update(
                    wid - 1,
                    (e.0, e.1, e.2, e.3, e.4, true),
                ) && final(self).spec_known() == old(self).spec_known() && final(self).spec_blobs()
                    == old(self).spec_blobs() && !final(self).spec_finished()
                &&& !ok ==> r is Err && *final(self) == *old(self)
            }),
    {
        if self.finished {
            return Err(SessionError::Finished);
        }
        if wid == 0 || wid > self.writers.len() || self.writers[wid - 1].closed {
            return Err(SessionError::UnknownWriter);
        }
        let idx = wid - 1;
        let entry = &self.writers[idx];
        proof {
            assert(entry_wf(self.writers@[idx as int]));
        }
        let w = match &entry.index {
            WriterIndex::Fixed(w) => w,
            WriterIndex::Dynamic(_) => return Err(SessionError::WrongWriterKind),
        };
        if !entry.incremental {
            if chunk_count != entry.chunk_count || chunk_count != w.index_count() as u64 {
                return Err(SessionError::CountMismatch);
            }
            if size != w.file_size() {
                return Err(SessionError::SizeMismatch);
            }
        }
        proof {
            assert(writers_view(self.writers@)[idx as int].1 == index_view(entry.index));
            assert(index_view(entry.index).4 == w.spec_written());
        }
        let (expected, _) = match w.close(entry.incremental) {
            Ok(c) => c,
            Err(e) => {
                proof {
                    assert(!entry.incremental);
                    assert(!(forall|i: int| 0 <= i < w.spec_written().len() ==> #[trigger] w.spec_written()[i]));
                }
                return Err(SessionError::Index(e));
            },
        };
        if !digest_eq(&expected, csum) {
            return Err(SessionError::CsumMismatch);
        }
        let e2 = IndexWriterEntry {
            name: entry.name.clone(),
            index: WriterIndex::Fixed(w.duplicate()),
            incremental: entry.incremental,
            chunk_count: entry.chunk_count,
            small_chunk_count: entry.small_chunk_count,
            closed: true,
        };
        self.replace_entry(idx, e2);
        Ok(())
    }

    /// Close dynamic writer `wid`: the client's chunk count must be the
    /// number appended, its size the end of the last chunk, and its
    /// checksum the one computed over the digests.
    pub fn dynamic_writer_close(&mut self, wid: usize, chunk_count: u64, size: u64, csum: &Digest) -> (r: Result<(), SessionError>)
        requires
            old(self).wf(),
        ensures
            old(self).spec_finished() ==> r == Err::<(), SessionError>(SessionError::Finished),
            !old(self).spec_finished() && !open_writer(old(self).spec_writers(), wid) ==> r == Err::<(), SessionError>(SessionError::UnknownWriter),
            !old(self).spec_finished() && open_writer(old(self).spec_writers(), wid) && old(self).spec_writers()[wid - 1].1.0 ==> r == Err::<(), SessionError>(SessionError::WrongWriterKind),
            final(self).wf(),
            ({
                let ws = old(self).spec_writers();
                let e = ws[wid - 1];
                let ok = !old(self).spec_finished() && open_writer(ws, wid) && !e.1.0 && chunk_count
                    == e.3 && size == dynamic_end(e.1.5) && csum@ == index_csum_spec(entry_digests(e.1.5));
                &&& ok ==> r is Ok && final(self).spec_writers() == ws.update(
                    wid - 1,
                    (e.0, e.1, e.2, e.3, e.4, true),
                ) && final(self).spec_known() == old(self).spec_known() && final(self).spec_blobs()
                    == old(self).spec_blobs() && !final(self).spec_finished()
                &&& !ok ==> r is Err && *final(self) == *old(self)
            }),
    {
        if self.finished {
            return Err(SessionError::Finished);
        }
        if wid == 0 || wid > self.writers.len() || self.writers[wid - 1].closed {
            return Err(SessionError::UnknownWriter);
        }
        let idx = wid - 1;
        let entry = &self.writers[idx];
        let w = match &entry.index {
            WriterIndex::Dynamic(w) => w,
            WriterIndex::Fixed(_) => return Err(SessionError::WrongWriterKind),
        };
        if chunk_count != entry.chunk_count {
            return Err(SessionError::CountMismatch);
        }
        let (expected, end) = w.close();
        if size != end {
            return Err(SessionError::SizeMismatch);
        }
        if !digest_eq(&expected, csum) {
            return Err(SessionError::CsumMismatch);
        }
        let e2 = IndexWriterEntry {
            name: entry.name.clone(),
            index: WriterIndex::Dynamic(w.duplicate()),
            incremental: entry.incremental,
            chunk_count: entry.chunk_count,
            small_chunk_count: entry.small_chunk_count,
            closed: true,
        };
        self.replace_entry(idx, e2);
        Ok(())
    }

    /// Accept blob `name` (`.blob`) whose upload announced `encoded_size`
    /// bytes and delivered `data_len`.
    pub fn add_blob(&mut self, name: &str, encoded_size: u64, data_len: u64) -> (r: Result<(), SessionError>)
        requires
            old(self).wf(),
        ensures
            old(self).spec_finished() ==> r == Err::<(), SessionError>(SessionError::Finished),
            !old(self).spec_finished() && !(name@.len() >= 5 && name@.subrange(name@.len() - 5, name@.len() as int) == ".blob"@) ==> r == Err::<(), SessionError>(SessionError::WrongExtension),
            !old(self).spec_finished() && name@.len() >= 5 && name@.subrange(name@.len() - 5, name@.len() as int) == ".blob"@ && encoded_size != data_len ==> r == Err::<(), SessionError>(SessionError::BlobSizeMismatch),
            final(self).wf(),
            ({
                let ok = !old(self).spec_finished() && name@.len() >= 5 && name@.subrange(
                    name@.len() - 5,
                    name@.len() as int,
                ) == ".blob"@ && encoded_size == data_len;
                &&& ok ==> r is Ok && final(self).spec_blobs() == old(self).spec_blobs().push(name@)
                    && final(self).spec_writers() == old(self).spec_writers() && final(self).spec_known()
                    == old(self).spec_known() && !final(self).spec_finished()
                &&& !ok ==> r is Err && *final(self) == *old(self)
            }),
    {
        if self.finished {
            return Err(SessionError::Finished);
        }
        proof {
            reveal_strlit(".blob");
        }
        if !ends_with(name, ".blob") {
            return Err(SessionError::WrongExtension);
        }
        if encoded_size != data_len {
            return Err(SessionError::BlobSizeMismatch);
        }
        let ghost b0 = self.blobs@;
        self.blobs.push(name.to_owned());
        proof {
            assert(self.blobs@.map_values(|b: String| b@) =~= b0.map_values(|b: String| b@).push(name@));
        }
        Ok(())
    }

    /// The file bytes of writer `wid`'s index (see `fixed_file_spec` and
    /// `dynamic_file_spec`).
    pub fn index_file_bytes(&self, wid: usize) -> (r: Option<Vec<u8>>)
        ensures
            !(1 <= wid <= self.spec_writers().len()) ==> r is None,
            1 <= wid <= self.spec_writers().len() ==> r is Some && ({
                let e = self.spec_writers()[wid - 1];
                if e.1.0 {
                    r->Some_0@ == crate::index::fixed_file_spec(e.1.1, e.1.2, e.1.3)
                } else {
                    r->Some_0@ == crate::index::dynamic_file_spec(e.1.5)
                }
            }),
    {
        if wid == 0 || wid > self.writers.len() {
            return None;
        }
        match &self.writers[wid - 1].index {
            WriterIndex::Fixed(w) => Some(w.to_file_bytes()),
            WriterIndex::Dynamic(w) => Some(w.to_file_bytes()),
        }
    }

    fn writer_named(&self, n: &str) -> (r: bool)
        ensures
            r == exists|i: int| 0 <= i < self.spec_writers().len() && (#[trigger] self.spec_writers()[i]).0 == n@,
    {
        let mut i: usize = 0;
        while i < self.writers.len()
            invariant
                0 <= i <= self.writers@.len(),
                forall|j: int| 0 <= j < i ==> (#[trigger] self.spec_writers()[j]).0 != n@,
            decreases self.writers@.len() - i,
        {
            if same_text(self.writers[i].name.as_str(), n) {
                assert(self.spec_writers()[i as int].0 == n@);
                return true;
            }
            i = i + 1;
        }
        false
    }

    fn blob_named(&self, n: &str) -> (r: bool)
        ensures
            r == exists|j: int| 0 <= j < self.spec_blobs().len() && #[trigger] self.spec_blobs()[j] == n@,
    {
        let mut i: usize = 0;
        while i < self.blobs.len()
            invariant
                0 <= i <= self.blobs@.len(),
                forall|j: int| 0 <= j < i ==> #[trigger] self.spec_blobs()[j] != n@,
            decreases self.blobs@.len() - i,
        {
            if same_text(self.blobs[i].as_str(), n) {
                assert(self.spec_blobs()[i as int] == n@);
                return true;
            }
            i = i + 1;
        }
        false
    }

    /// Whether the files a manifest lists are exactly the archives and
    /// blobs uploaded (the manifest itself aside).
    pub fn manifest_matches(&self, manifest_files: &[String]) -> (r: bool)
        ensures
            r == (names_of(manifest_files@) == uploaded_names(self.spec_writers(), self.spec_blobs())),
    {
        let ghost mset = names_of(manifest_files@);
        let ghost up = uploaded_names(self.spec_writers(), self.spec_blobs());
        let mut i: usize = 0;
        while i < manifest_files.len()
            invariant
                0 <= i <= manifest_files@.len(),
                mset == names_of(manifest_files@),
                up == uploaded_names(self.spec_writers(), self.spec_blobs()),
                forall|j: int| 0 <= j < i ==> up.contains(#[trigger] manifest_files@[j]@),
            decreases manifest_files@.len() - i,
        {
            let m = manifest_files[i].as_str();
            let ok = self.writer_named(m) || (self.blob_named(m) && !same_text(m, "index.json.blob"));
            if !ok {
                proof {
                    assert(mset.contains(manifest_files@[i as int]@));
                    assert(!up.contains(manifest_files@[i as int]@));
                    assert(mset != up);
                }
                return false;
            }
            i = i + 1;
        }
        let mut w: usize = 0;
        while w < self.writers.len()
            invariant
                0 <= w <= self.writers@.len(),
                mset == names_of(manifest_files@),
                up == uploaded_names(self.spec_writers(), self.spec_blobs()),
                forall|j: int| 0 <= j < w ==> mset.contains((#[trigger] self.spec_writers()[j]).0),
            decreases self.writers@.len() - w,
        {
            if !list_contains(manifest_files, self.writers[w].name.as_str()) {
                proof {
                    assert(up.contains(self.spec_writers()[w as int].0));
                    assert(!mset.contains(self.spec_writers()[w as int].0));
                }
                return false;
            }
            assert(mset.contains(self.spec_writers()[w as int].0));
            w = w + 1;
        }
        let mut b: usize = 0;
        while b < self.blobs.len()
            invariant
                0 <= b <= self.blobs@.len(),
                mset == names_of(manifest_files@),
                up == uploaded_names(self.spec_writers(), self.spec_blobs()),
                forall|j: int| 0 <= j < b && #[trigger] self.spec_blobs()[j] != "index.json.blob"@ ==> mset.contains(self.spec_blobs()[j]),
            decreases self.blobs@.len() - b,
        {
            let name = self.blobs[b].as_str();
            if !same_text(name, "index.json.blob") && !list_contains(manifest_files, name) {
                proof {
                    assert(up.contains(self.spec_blobs()[b as int]));
                    assert(!mset.contains(self.spec_blobs()[b as int]));
                }
                return false;
            }
            assert(self.spec_blobs()[b as int] != "index.json.blob"@ ==> mset.contains(self.spec_blobs()[b as int]));
            b = b + 1;
        }
        proof {
            assert forall|n: Seq<char>| mset.contains(n) == up.contains(n) by {
                if mset.contains(n) {
                    let j = choose|j: int| 0 <= j < manifest_files@.len() && (#[trigger] manifest_files@[j])@ == n;
                    assert(up.contains(manifest_files@[j]@));
                }
                if up.contains(n) {
                    if exists|j: int| 0 <= j < self.spec_writers().len() && (#[trigger] self.spec_writers()[j]).0 == n {
                        let j = choose|j: int| 0 <= j < self.spec_writers().len() && (#[trigger] self.spec_writers()[j]).0 == n;
                        assert(mset.contains(self.spec_writers()[j].0));
                    } else {
                        let j = choose|j: int| 0 <= j < self.spec_blobs().len() && #[trigger] self.spec_blobs()[j] == n && n != "index.json.blob"@;
                        assert(mset.contains(self.spec_blobs()[j]));
                    }
                }
            }
            assert(mset =~= up);
        }
        true
    }

    /// Finish the session: every writer must be closed, the manifest blob
    /// uploaded, its signature valid (`signature_valid`, checked by the
    /// caller with the key) and the files it lists (`manifest_files`)
    /// exactly the archives and blobs uploaded. Afterwards every request
    /// fails.
    pub fn finish(&mut self, manifest_files: &[String], signature_valid: bool) -> (r: Result<(), SessionError>)
        requires
            old(self).wf(),
        ensures
            old(self).spec_finished() ==> r == Err::<(), SessionError>(SessionError::Finished),
            !old(self).spec_finished() && (exists|i: int| 0 <= i < old(self).spec_writers().len() && !(#[trigger] old(self).spec_writers()[i]).5) ==> r == Err::<(), SessionError>(SessionError::OpenWriters),
            !old(self).spec_finished() && (forall|i: int| 0 <= i < old(self).spec_writers().len() ==> (#[trigger] old(self).spec_writers()[i]).5) && !old(self).spec_blobs().contains("index.json.blob"@) ==> r == Err::<(), SessionError>(SessionError::MissingManifest),
            !old(self).spec_finished() && (forall|i: int| 0 <= i < old(self).spec_writers().len() ==> (#[trigger] old(self).spec_writers()[i]).5) && old(self).spec_blobs().contains("index.json.blob"@) && !signature_valid ==> r == Err::<(), SessionError>(SessionError::BadSignature),
            !old(self).spec_finished() && (forall|i: int| 0 <= i < old(self).spec_writers().len() ==> (#[trigger] old(self).spec_writers()[i]).5) && old(self).spec_blobs().contains("index.json.blob"@) && signature_valid && names_of(manifest_files@) != uploaded_names(old(self).spec_writers(), old(self).spec_blobs()) ==> r == Err::<(), SessionError>(SessionError::ManifestMismatch),
            final(self).wf(),
            ({
                let ws = old(self).spec_writers();
                let ok = !old(self).spec_finished() && (forall|i: int| 0 <= i < ws.len() ==> (#[trigger] ws[i]).5)
                    && old(self).spec_blobs().contains("index.json.blob"@) && signature_valid
                    && names_of(manifest_files@) == uploaded_names(ws, old(self).spec_blobs());
                &&& ok ==> r is Ok && final(self).spec_finished() && final(self).spec_writers() == ws
                    && final(self).spec_known() == old(self).spec_known() && final(self).spec_blobs()
                    == old(self).spec_blobs()
                &&& !ok ==> r is Err && *final(self) == *old(self)
            }),
    {
        if self.finished {
            return Err(SessionError::Finished);
        }
        let mut i: usize = 0;
        while i < self.writers.len()
            invariant
                0 <= i <= self.writers@.len(),
                forall|j: int| 0 <= j < i ==> (#[trigger] writers_view(self.writers@)[j]).5,
                *self == *old(self),
                old(self).wf(),
                !old(self).finished,
            decreases self.writers@.len() - i,
        {
            if !self.writers[i].closed {
                assert(!writers_view(self.writers@)[i as int].5);
                assert(old(self).spec_writers()[i as int] == writers_view(self.writers@)[i as int]);
                assert(!(old(self).spec_writers()[i as int]).5);
                return Err(SessionError::OpenWriters);
            }
            i = i + 1;
        }
        let mut found = false;
        let mut k: usize = 0;
        while k < self.blobs.len()
            invariant
                *self == *old(self),
                old(self).wf(),
                !old(self).finished,
                forall|j: int| 0 <= j < self.writers@.len() ==> (#[trigger] writers_view(self.writers@)[j]).5,
                0 <= k <= self.blobs@.len(),
                found <==> exists|j: int| 0 <= j < k && (#[trigger] self.blobs@[j])@ == "index.json.blob"@,
            decreases self.blobs@.len() - k,
        {
            if same_text(self.blobs[k].as_str(), "index.json.blob") {
                found = true;
            }
            k = k + 1;
        }
        proof {
            let bs = self.blobs@.map_values(|b: String| b@);
            if found {
                let j = choose|j: int| 0 <= j < k && (#[trigger] self.blobs@[j])@ == "index.json.blob"@;
                assert(bs[j] == "index.json.blob"@);
            } else {
                if bs.contains("index.json.blob"@) {
                    let j = choose|j: int| 0 <= j < bs.len() && bs[j] == "index.json.blob"@;
                    assert(self.blobs@[j]@ == "index.json.blob"@);
                }
            }
        }
        if !found {
            return Err(SessionError::MissingManifest);
        }
        if !signature_valid {
            return Err(SessionError::BadSignature);
        }
        if !self.manifest_matches(manifest_files) {
            return Err(SessionError::ManifestMismatch);
        }
        self.finished = true;
        Ok(())
    }
}

/// The names in a list.
pub open spec fn names_of(list: Seq<String>) -> Set<Seq<char>> {
    Set::new(|n: Seq<char>| exists|i: int| 0 <= i < list.len() && (#[trigger] list[i])@ == n)
}

/// The names of all archives and blobs uploaded, the manifest aside.
pub open spec fn uploaded_names(ws: Seq<EntryView>, blobs: Seq<Seq<char>>) -> Set<Seq<char>> {
    Set::new(
        |n: Seq<char>|
            (exists|i: int| 0 <= i < ws.len() && (#[trigger] ws[i]).0 == n) || (exists|j: int|
                0 <= j < blobs.len() && #[trigger] blobs[j] == n && n != "index.json.blob"@),
    )
}

fn list_contains(list: &[String], n: &str) -> (r: bool)
    ensures
        r == exists|i: int| 0 <= i < list@.len() && (#[trigger] list@[i])@ == n@,
{
    let mut i: usize = 0;
    while i < list.len()
        invariant
            0 <= i <= list@.len(),
            forall|j: int| 0 <= j < i ==> (#[trigger] list@[j])@ != n@,
        decreases list@.len() - i,
    {
        if same_text(list[i].as_str(), n) {
            return true;
        }
        i = i + 1;
    }
    false
}

/// Chunk `k` of a fixed append is the first that fails, and it fails
/// because it was never registered.
pub open spec fn fixed_unknown_at(
    ds: Seq<Digest>,
    ws: Seq<bool>,
    size: u64,
    cs: u64,
    known: Seq<(Digest, u32)>,
    digests: Seq<Digest>,
    offsets: Seq<u64>,
    k: int,
) -> bool {
    0 <= k && fixed_fold(ds, ws, size, cs, known, digests, offsets, k) is Some && known_size(known, digests[k]@) is None
}

/// Chunk `k` of a dynamic append is the first that fails, and it fails
/// because it was never registered.
pub open spec fn dynamic_unknown_at(
    es: Seq<(u64, Digest)>,
    known: Seq<(Digest, u32)>,
    digests: Seq<Digest>,
    offsets: Seq<u64>,
    k: int,
) -> bool {
    0 <= k && dynamic_fold(es, known, digests, offsets, k) is Some && known_size(known, digests[k]@) is None
}

proof fn lemma_fixed_fold_prefix(
    ds: Seq<Digest>,
    ws: Seq<bool>,
    size: u64,
    cs: u64,
    known: Seq<(Digest, u32)>,
    digests: Seq<Digest>,
    offsets: Seq<u64>,
    i: int,
    n: int,
)
    requires
        0 <= i <= n,
        fixed_fold(ds, ws, size, cs, known, digests, offsets, n) is Some,
    ensures
        fixed_fold(ds, ws, size, cs, known, digests, offsets, i) is Some,
{
    if fixed_fold(ds, ws, size, cs, known, digests, offsets, i) is None {
        lemma_fixed_fold_stuck(ds, ws, size, cs, known, digests, offsets, i, n);
    }
}

proof fn lemma_dynamic_fold_prefix(
    es: Seq<(u64, Digest)>,
    known: Seq<(Digest, u32)>,
    digests: Seq<Digest>,
    offsets: Seq<u64>,
    i: int,
    n: int,
)
    requires
        0 <= i <= n,
        dynamic_fold(es, known, digests, offsets, n) is Some,
    ensures
        dynamic_fold(es, known, digests, offsets, i) is Some,
{
    if dynamic_fold(es, known, digests, offsets, i) is None {
        lemma_dynamic_fold_stuck(es, known, digests, offsets, i, n);
    }
}

proof fn lemma_fixed_fold_stuck(
    ds: Seq<Digest>,
    ws: Seq<bool>,
    size: u64,
    cs: u64,
    known: Seq<(Digest, u32)>,
    digests: Seq<Digest>,
    offsets: Seq<u64>,
    i: int,
    n: int,
)
    requires
        0 <= i <= n,
        fixed_fold(ds, ws, size, cs, known, digests, offsets, i) is None,
    ensures
        fixed_fold(ds, ws, size, cs, known, digests, offsets, n) is None,
    decreases n - i,
{
    if i < n {
        lemma_fixed_fold_stuck(ds, ws, size, cs, known, digests, offsets, i + 1, n);
    }
}

proof fn lemma_dynamic_fold_stuck(
    es: Seq<(u64, Digest)>,
    known: Seq<(Digest, u32)>,
    digests: Seq<Digest>,
    offsets: Seq<u64>,
    i: int,
    n: int,
)
    requires
        0 <= i <= n,
        dynamic_fold(es, known, digests, offsets, i) is None,
    ensures
        dynamic_fold(es, known, digests, offsets, n) is None,
    decreases n - i,
{
    if i < n {
        lemma_dynamic_fold_stuck(es, known, digests, offsets, i + 1, n);
    }
}

} // verus!
