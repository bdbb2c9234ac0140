//! Decisions of the verification engine: which chunks to check, what a
//! check result does to the shared verified and corrupt sets, how a
//! corrupt chunk file is renamed, and the state recorded for a snapshot.

use vstd::prelude::*;

use crate::index::{digest_eq, Digest};
use crate::session::{digest_to_hex, lower_hex_spec};
use crate::text::{ends_with, first_index_of, same_text, split_once};

verus! {

/// A set of digests, kept as a list without duplicates.
pub struct DigestSet {
    items: Vec<Digest>,
}

impl DigestSet {
    /// The digests held, as byte sequences.
    pub closed spec fn view_set(&self) -> Set<Seq<u8>> {
        Set::new(|d: Seq<u8>| exists|i: int| 0 <= i < self.items@.len() && self.items@[i]@ == d)
    }

    /// An empty set.
    pub fn new() -> (r: Self)
        ensures
            r.view_set() == Set::<Seq<u8>>::empty(),
    {
        let r = DigestSet { items: Vec::new() };
        assert(r.view_set() =~= Set::<Seq<u8>>::empty());
        r
    }

    /// Whether `d` is in the set.
    pub fn contains(&self, d: &Digest) -> (r: bool)
        ensures
            r == self.view_set().contains(d@),
    {
        let mut i: usize = 0;
        while i < self.items.len()
            invariant
                0 <= i <= self.items@.len(),
                forall|j: int| 0 <= j < i ==> self.items@[j]@ != d@,
            decreases self.items@.len() - i,
        {
            if digest_eq(&self.items[i], d) {
                return true;
            }
            i = i + 1;
        }
        false
    }

    /// Add `d` to the set.
    pub fn insert(&mut self, d: &Digest)
        ensures
            final(self).view_set() == old(self).view_set().insert(d@),
    {
        if !self.contains(d) {
            let ghost before = self.items@;
            self.items.push(*d);
            proof {
                assert forall|x: Seq<u8>| #[trigger] final(self).view_set().contains(x) == old(self).view_set().insert(d@).contains(x) by {
                    if exists|i: int| 0 <= i < before.len() && before[i]@ == x {
                        let i = choose|i: int| 0 <= i < before.len() && before[i]@ == x;
                        assert(self.items@[i]@ == x);
                    }
                    if x == d@ {
                        assert(self.items@[before.len() as int]@ == x);
                    }
                }
                assert(final(self).view_set() =~= old(self).view_set().insert(d@));
            }
        } else {
            assert(old(self).view_set().insert(d@) =~= old(self).view_set());
        }
    }
}

/// What to do with the next chunk of an index.
#[derive(Debug, Clone, Copy, PartialEq, Eq, Structural)]
pub enum ChunkStep {
    /// Verified before in this run: skip it.
    AlreadyVerified,
    /// Found corrupt before in this run: count an error and skip it.
    KnownCorrupt,
    /// Load the chunk and hand it to a decoder.
    Load,
}

/// What to do after a chunk was checked.
#[derive(Debug, Clone, Copy, PartialEq, Eq, Structural)]
pub enum ChunkOutcome {
    /// Nothing more.
    Done,
    /// Rename the corrupt chunk file out of the way.
    Quarantine,
}

/// The result of checking one loaded chunk.
#[derive(Debug, Clone, Copy, PartialEq, Eq, Structural)]
pub enum ChunkCheck {
    /// The blob's crypt mode could not be read.
    UnknownCryptMode,
    /// The blob was read; whether its crypt mode is the index's, and
    /// whether CRC, signature and digest validated.
    Checked { mode_matches: bool, valid: bool },
}

/// The shared state of a verification run: digests verified and digests
/// found corrupt, reused across snapshots, and the errors of the current
/// index.
pub struct ChunkVerifier {
    verified: DigestSet,
    corrupt: DigestSet,
    errors: u64,
}

/// One more error, saturating.
pub open spec fn bump(e: u64) -> u64 {
    if e < u64::MAX {
        (e + 1) as u64
    } else {
        u64::MAX
    }
}

impl ChunkVerifier {
    /// Digests verified in this run.
    pub closed spec fn spec_verified(&self) -> Set<Seq<u8>> {
        self.verified.view_set()
    }

    /// Digests found corrupt in this run.
    pub closed spec fn spec_corrupt(&self) -> Set<Seq<u8>> {
        self.corrupt.view_set()
    }

    /// Whether `d` was found corrupt in this run.
    pub fn is_corrupt(&self, d: &Digest) -> (r: bool)
        ensures
            r == self.spec_corrupt().contains(d@),
    {
        self.corrupt.contains(d)
    }

    /// Whether `d` was verified in this run.
    pub fn is_verified(&self, d: &Digest) -> (r: bool)
        ensures
            r == self.spec_verified().contains(d@),
    {
        self.verified.contains(d)
    }

    pub closed spec fn spec_errors(&self) -> u64 {
        self.errors
    }

    /// A run with nothing verified yet.
    pub fn new() -> (r: Self)
        ensures
            r.spec_verified() == Set::<Seq<u8>>::empty(),
            r.spec_corrupt() == Set::<Seq<u8>>::empty(),
            r.spec_errors() == 0,
    {
        ChunkVerifier { verified: DigestSet::new(), corrupt: DigestSet::new(), errors: 0 }
    }

    /// Start a new index: its error count is zero.
    pub fn start_index(&mut self)
        ensures
            final(self).spec_errors() == 0,
            final(self).spec_verified() == old(self).spec_verified(),
            final(self).spec_corrupt() == old(self).spec_corrupt(),
    {
        self.errors = 0;
    }

    fn count_error(&mut self)
        ensures
            final(self).spec_errors() == bump(old(self).spec_errors()),
            final(self).spec_verified() == old(self).spec_verified(),
            final(self).spec_corrupt() == old(self).spec_corrupt(),
    {
        if self.errors < u64::MAX {
            self.errors = self.errors + 1;
        }
    }

    /// Decide what to do with the next chunk: a verified chunk is skipped,
    /// a corrupt one counts as an error, any other is loaded.
    pub fn begin_chunk(&mut self, digest: &Digest) -> (r: ChunkStep)
        ensures
            final(self).spec_verified() == old(self).spec_verified(),
            final(self).spec_corrupt() == old(self).spec_corrupt(),
            old(self).spec_verified().contains(digest@) ==> r == ChunkStep::AlreadyVerified
                && final(self).spec_errors() == old(self).spec_errors(),
            !old(self).spec_verified().contains(digest@) && old(self).spec_corrupt().contains(
                digest@,
            ) ==> r == ChunkStep::KnownCorrupt && final(self).spec_errors() == bump(old(self).spec_errors()),
            !old(self).spec_verified().contains(digest@) && !old(self).spec_corrupt().contains(
                digest@,
            ) ==> r == ChunkStep::Load && final(self).spec_errors() == old(self).spec_errors(),
    {
        if self.verified.contains(digest) {
            return ChunkStep::AlreadyVerified;
        }
        if self.corrupt.contains(digest) {
            self.count_error();
            return ChunkStep::KnownCorrupt;
        }
        ChunkStep::Load
    }

    /// A chunk that could not be loaded is corrupt and is quarantined.
    pub fn load_failed(&mut self, digest: &Digest) -> (r: ChunkOutcome)
        ensures
            r == ChunkOutcome::Quarantine,
            final(self).spec_corrupt() == old(self).spec_corrupt().insert(digest@),
            final(self).spec_verified() == old(self).spec_verified(),
            final(self).spec_errors() > 0,
    {
        self.corrupt.insert(digest);
        self.count_error();
        ChunkOutcome::Quarantine
    }

    /// Record the check of a loaded chunk. An unreadable crypt mode makes
    /// it corrupt; a crypt mode other than the index's is an error; a chunk
    /// that does not validate is corrupt and quarantined; one that does is
    /// verified.
    pub fn chunk_checked(&mut self, digest: &Digest, check: ChunkCheck) -> (r: ChunkOutcome)
        ensures
            match check {
                ChunkCheck::UnknownCryptMode => r == ChunkOutcome::Done && final(self).spec_corrupt()
                    == old(self).spec_corrupt().insert(digest@) && final(self).spec_verified()
                    == old(self).spec_verified() && final(self).spec_errors() == bump(old(self).spec_errors()),
                ChunkCheck::Checked { mode_matches, valid } => {
                    let e1 = if mode_matches {
                        old(self).spec_errors()
                    } else {
                        bump(old(self).spec_errors())
                    };
                    &&& valid ==> r == ChunkOutcome::Done && final(self).spec_verified() == old(
                        self,
                    ).spec_verified().insert(digest@) && final(self).spec_corrupt() == old(
                        self,
                    ).spec_corrupt() && final(self).spec_errors() == e1
                    &&& !valid ==> r == ChunkOutcome::Quarantine && final(self).spec_corrupt()
                        == old(self).spec_corrupt().insert(digest@) && final(self).spec_verified()
                        == old(self).spec_verified() && final(self).spec_errors() == bump(e1)
                },
            },
    {
        match check {
            ChunkCheck::UnknownCryptMode => {
                self.corrupt.insert(digest);
                self.count_error();
                ChunkOutcome::Done
            },
            ChunkCheck::Checked { mode_matches, valid } => {
                if !mode_matches {
                    self.count_error();
                }
                if !valid {
                    self.corrupt.insert(digest);
                    self.count_error();
                    ChunkOutcome::Quarantine
                } else {
                    self.verified.insert(digest);
                    ChunkOutcome::Done
                }
            },
        }
    }

    /// Errors counted for the current index.
    pub fn error_count(&self) -> (r: u64)
        ensures
            r == self.spec_errors(),
    {
        self.errors
    }
}

/// Verification state recorded in a snapshot's manifest.
#[derive(Debug, Clone, Copy, PartialEq, Eq, Structural)]
pub enum VerifyState {
    Passed,
    Failed,
}

/// The state of a snapshot: failed where any of its files failed.
pub fn snapshot_verify_state(file_ok: &[bool]) -> (r: VerifyState)
    ensures
        (forall|i: int| 0 <= i < file_ok@.len() ==> #[trigger] file_ok@[i]) ==> r == VerifyState::Passed,
        (exists|i: int| 0 <= i < file_ok@.len() && !#[trigger] file_ok@[i]) ==> r == VerifyState::Failed,
{
    let mut i: usize = 0;
    while i < file_ok.len()
        invariant
            0 <= i <= file_ok@.len(),
            forall|j: int| 0 <= j < i ==> #[trigger] file_ok@[j],
        decreases file_ok@.len() - i,
    {
        if !file_ok[i] {
            return VerifyState::Failed;
        }
        i = i + 1;
    }
    VerifyState::Passed
}

/// The kind of file a snapshot holds, by its extension.
#[derive(Debug, Clone, Copy, PartialEq, Eq, Structural)]
pub enum ArchiveType {
    FixedIndex,
    DynamicIndex,
    Blob,
}

pub open spec fn has_suffix(s: Seq<char>, suffix: Seq<char>) -> bool {
    suffix.len() <= s.len() && s.subrange(s.len() - suffix.len(), s.len() as int) == suffix
}

/// The archive type of a file name: `.fidx`, `.didx` or `.blob`; `None`
/// for any other name.
pub fn archive_type(name: &str) -> (r: Option<ArchiveType>)
    ensures
        has_suffix(name@, ".fidx"@) ==> r == Some(ArchiveType::FixedIndex),
        !has_suffix(name@, ".fidx"@) && has_suffix(name@, ".didx"@) ==> r == Some(ArchiveType::DynamicIndex),
        !has_suffix(name@, ".fidx"@) && !has_suffix(name@, ".didx"@) && has_suffix(name@, ".blob"@) ==> r == Some(
            ArchiveType::Blob,
        ),
        !has_suffix(name@, ".fidx"@) && !has_suffix(name@, ".didx"@) && !has_suffix(name@, ".blob"@) ==> r is None,
{
    if ends_with(name, ".fidx") {
        Some(ArchiveType::FixedIndex)
    } else if ends_with(name, ".didx") {
        Some(ArchiveType::DynamicIndex)
    } else if ends_with(name, ".blob") {
        Some(ArchiveType::Blob)
    } else {
        None
    }
}

/// What verifying one snapshot amounts to: the result reported to the
/// caller, and the state to record in its manifest, if any.
#[derive(Debug, Clone, Copy, PartialEq, Eq, Structural)]
pub struct SnapshotVerifyOutcome {
    pub result: bool,
    pub record: Option<VerifyState>,
}

/// Decide a snapshot's verification: a snapshot whose lock could not be
/// taken is skipped as a success; a manifest that does not load fails
/// without recording anything; a snapshot the filter rejects is skipped
/// as a success; otherwise the files' results give the state to record
/// and the result.
pub fn snapshot_verify_outcome(
    lock_acquired: bool,
    manifest_loaded: bool,
    filter_accepts: bool,
    file_ok: &[bool],
) -> (r: SnapshotVerifyOutcome)
    ensures
        !lock_acquired ==> r == (SnapshotVerifyOutcome { result: true, record: None }),
        lock_acquired && !manifest_loaded ==> r == (SnapshotVerifyOutcome { result: false, record: None }),
        lock_acquired && manifest_loaded && !filter_accepts ==> r == (SnapshotVerifyOutcome {
            result: true,
            record: None,
        }),
        lock_acquired && manifest_loaded && filter_accepts ==> ({
            let all = forall|i: int| 0 <= i < file_ok@.len() ==> #[trigger] file_ok@[i];
            r == (SnapshotVerifyOutcome {
                result: all,
                record: Some(if all { VerifyState::Passed } else { VerifyState::Failed }),
            })
        }),
{
    if !lock_acquired {
        return SnapshotVerifyOutcome { result: true, record: None };
    }
    if !manifest_loaded {
        return SnapshotVerifyOutcome { result: false, record: None };
    }
    if !filter_accepts {
        return SnapshotVerifyOutcome { result: true, record: None };
    }
    let state = snapshot_verify_state(file_ok);
    SnapshotVerifyOutcome { result: state == VerifyState::Passed, record: Some(state) }
}

/// Choose the counter `n` in the name `<digest>.<n>.bad` of a quarantined
/// chunk file: the first `n` below 9 whose name is free, else 9;
/// `taken[n]` tells whether the name exists.
pub fn bad_chunk_counter(taken: &[bool]) -> (r: u64)
    ensures
        r <= 9,
        forall|m: int| 0 <= m < r && m < taken@.len() ==> #[trigger] taken@[m],
        r < 9 && r < taken@.len() ==> !taken@[r as int],
{
    let mut counter: usize = 0;
    while counter < 9 && counter < taken.len() && taken[counter]
        invariant
            counter <= 9,
            forall|m: int| 0 <= m < counter && m < taken@.len() ==> #[trigger] taken@[m],
        decreases 9 - counter,
    {
        counter = counter + 1;
    }
    counter as u64
}

/// The file name of a quarantined chunk: `<digest hex>.<n>.bad`.
pub fn bad_chunk_name(digest: &Digest, counter: u64) -> (r: Vec<u8>)
    requires
        counter <= 9,
    ensures
        r@ == lower_hex_spec(digest@) + seq![46u8, (48 + counter) as u8, 46u8, 98u8, 97u8, 100u8],
{
    let mut name = digest_to_hex(digest);
    name.push(46);
    name.push((48 + counter) as u8);
    name.push(46);
    name.push(98);
    name.push(97);
    name.push(100);
    assert(name@ =~= lower_hex_spec(digest@) + seq![46u8, (48 + counter) as u8, 46u8, 98u8, 97u8, 100u8]);
    name
}

/// The user part of an auth id `user@realm` or `user@realm!token`.
pub open spec fn authid_user(a: Seq<char>) -> Seq<char> {
    match first_index_of(a, '!') {
        Some(i) => a.subrange(0, i),
        None => a,
    }
}

pub open spec fn authid_is_token(a: Seq<char>) -> bool {
    first_index_of(a, '!') is Some
}

/// Whether a group owned by `group_owner` is verified for `owner`: the
/// same id, or a token of that user.
pub open spec fn owner_matches_spec(group_owner: Seq<char>, owner: Seq<char>) -> bool {
    group_owner == owner || (authid_is_token(group_owner) && !authid_is_token(owner)
        && authid_user(group_owner) == authid_user(owner))
}

/// Check a group's owner against the owner a verification is limited to.
pub fn owner_matches(group_owner: &str, owner: &str) -> (r: bool)
    ensures
        r == owner_matches_spec(group_owner@, owner@),
{
    if same_text(group_owner, owner) {
        return true;
    }
    match (split_once(group_owner, '!'), split_once(owner, '!')) {
        (Some((user, _)), None) => same_text(user.as_str(), owner),
        _ => false,
    }
}

/// Whether a group is verified by a datastore-wide run: all but the
/// benchmark group `host/benchmark`.
pub fn group_is_verified(backup_type: &str, backup_id: &str) -> (r: bool)
    ensures
        r == !(backup_type@ == "host"@ && backup_id@ == "benchmark"@),
{
    !(same_text(backup_type, "host") && same_text(backup_id, "benchmark"))
}

} // verus!
