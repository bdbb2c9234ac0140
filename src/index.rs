//! Chunk indices: the fixed index (equal-sized chunks of a file of known
//! size) and the dynamic index (variable-sized chunks, by end offset), with
//! their index-level checksum, the SHA-256 of the concatenated digests.

use vstd::prelude::*;
use vstd::string::StringSliceAdditionalSpecFns;

use crate::bytes::{append_bytes, le_bytes_spec, le_u64_spec, push_le_u64, range_equals, read_le_u64};

verus! {

/// A chunk digest: the SHA-256 of the chunk's plaintext.
pub type Digest = [u8; 32];

/// The SHA-256 digest of `data`.
pub uninterp spec fn sha256_of(data: Seq<u8>) -> Digest;

/// Relies on `openssl::sha::sha256`: the SHA-256 digest of `data`, which
/// depends on the bytes alone.
#[verifier::external_body]
pub(crate) fn sha256(data: &[u8]) -> (r: Digest)
    ensures
        r == sha256_of(data@),
{
    openssl::sha::sha256(data)
}

/// Byte sequences one after the other.
pub open spec fn concat_views(vs: Seq<Seq<u8>>) -> Seq<u8>
    decreases vs.len(),
{
    if vs.len() == 0 {
        Seq::empty()
    } else {
        concat_views(vs.drop_last()) + vs.last()
    }
}

/// The bytes of each digest.
pub open spec fn dviews(ds: Seq<Digest>) -> Seq<Seq<u8>> {
    ds.map_values(|d: Digest| d@)
}

/// The digests one after the other.
pub open spec fn concat_digests(ds: Seq<Digest>) -> Seq<u8> {
    concat_views(dviews(ds))
}

/// The index-level checksum of a digest list.
pub open spec fn index_csum_spec(ds: Seq<Digest>) -> Seq<u8> {
    sha256_of(concat_digests(ds))@
}

/// The index-level checksum of a list of digest bytes.
pub open spec fn views_csum_spec(vs: Seq<Seq<u8>>) -> Seq<u8> {
    sha256_of(concat_views(vs))@
}

/// Append all digests to `out`.
pub fn append_digests(out: &mut Vec<u8>, ds: &[Digest])
    ensures
        final(out)@ == old(out)@ + concat_digests(ds@),
{
    let mut i: usize = 0;
    while i < ds.len()
        invariant
            0 <= i <= ds@.len(),
            out@ == old(out)@ + concat_digests(ds@.subrange(0, i as int)),
        decreases ds@.len() - i,
    {
        append_bytes(out, ds[i].as_slice());
        proof {
            let s = ds@.subrange(0, i + 1);
            assert(dviews(s).drop_last() =~= dviews(ds@.subrange(0, i as int)));
            assert(dviews(s).last() == ds@[i as int]@);
        }
        i = i + 1;
    }
    assert(ds@.subrange(0, i as int) =~= ds@);
}

/// The index-level checksum of `ds`.
pub fn compute_index_csum(ds: &[Digest]) -> (r: Digest)
    ensures
        r@ == index_csum_spec(ds@),
{
    let mut data: Vec<u8> = Vec::new();
    append_digests(&mut data, ds);
    assert(data@ =~= concat_digests(ds@));
    sha256(data.as_slice())
}

/// Whether two digests are equal.
pub fn digest_eq(a: &Digest, b: &Digest) -> (r: bool)
    ensures
        r == (a@ == b@),
{
    let r = range_equals(a.as_slice(), 0, b.as_slice());
    proof {
        if r {
            assert(a@.subrange(0, 32) =~= a@);
        } else if a@ == b@ {
            assert(a@.subrange(0, 32) =~= a@);
        }
    }
    r
}

/// The digest stored at `b[start..start + 32]`.
pub fn read_digest(b: &[u8], start: usize) -> (r: Digest)
    requires
        start + 32 <= b@.len(),
    ensures
        r@ == b@.subrange(start as int, start + 32),
{
    let blen = b.len();
    let mut d: Digest = [0u8; 32];
    let mut i: usize = 0;
    while i < 32
        invariant
            blen == b@.len(),
            0 <= i <= 32,
            start + 32 <= b@.len(),
            forall|j: int| 0 <= j < i ==> d@[j] == b@[start + j],
            d@.len() == 32,
        decreases 32 - i,
    {
        d[i] = b[start + i];
        i = i + 1;
    }
    assert(d@ =~= b@.subrange(start as int, start + 32));
    d
}

/// The value of an ASCII hexadecimal digit, either case.
pub open spec fn hex_nibble(c: u8) -> Option<u8> {
    if 48 <= c <= 57 {
        Some((c - 48) as u8)
    } else if 97 <= c <= 102 {
        Some((c - 87) as u8)
    } else if 65 <= c <= 70 {
        Some((c - 55) as u8)
    } else {
        None
    }
}

/// The digest that 64 hexadecimal digits stand for, two per byte, high
/// nibble first.
pub open spec fn hex_digest_spec(b: Seq<u8>) -> Option<Seq<u8>> {
    if b.len() == 64 && forall|i: int| 0 <= i < 64 ==> (#[trigger] hex_nibble(b[i])) is Some {
        Some(
            Seq::new(
                32,
                |i: int| (16 * hex_nibble(b[2 * i])->Some_0 + hex_nibble(b[2 * i + 1])->Some_0) as u8,
            ),
        )
    } else {
        None
    }
}

fn nibble(c: u8) -> (r: Option<u8>)
    ensures
        r == hex_nibble(c),
{
    if 48 <= c && c <= 57 {
        Some(c - 48)
    } else if 97 <= c && c <= 102 {
        Some(c - 87)
    } else if 65 <= c && c <= 70 {
        Some(c - 55)
    } else {
        None
    }
}

/// Parse a digest written as 64 hexadecimal digits.
pub fn hex_to_digest(s: &str) -> (r: Option<Digest>)
    ensures
        match hex_digest_spec(s.spec_bytes()) {
            Some(d) => r is Some && r->Some_0@ == d,
            None => r is None,
        },
{
    let b = s.as_bytes();
    if b.len() != 64 {
        return None;
    }
    let mut d: Digest = [0u8; 32];
    let mut i: usize = 0;
    while i < 32
        invariant
            0 <= i <= 32,
            b@ == s.spec_bytes(),
            b@.len() == 64,
            d@.len() == 32,
            forall|j: int| 0 <= j < 2 * i ==> (#[trigger] hex_nibble(b@[j])) is Some,
            forall|j: int|
                0 <= j < i ==> d@[j] == (16 * hex_nibble(b@[2 * j])->Some_0 + hex_nibble(
                    b@[2 * j + 1],
                )->Some_0) as u8,
        decreases 32 - i,
    {
        let hi = match nibble(b[2 * i]) {
            Some(v) => v,
            None => return None,
        };
        let lo = match nibble(b[2 * i + 1]) {
            Some(v) => v,
            None => return None,
        };
        d[i] = 16 * hi + lo;
        proof {
            assert(hex_nibble(b@[2 * i]) is Some);
            assert(hex_nibble(b@[2 * i + 1]) is Some);
        }
        i = i + 1;
    }
    proof {
        let e = hex_digest_spec(s.spec_bytes())->Some_0;
        assert(d@ =~= e);
    }
    Some(d)
}

/// Number of chunks of a fixed index: the size divided by the chunk size,
/// rounded up.
pub open spec fn fixed_chunk_count(size: nat, chunk_size: nat) -> nat
    recommends
        chunk_size > 0,
{
    if chunk_size == 0 {
        0
    } else {
        ((size + chunk_size - 1) / chunk_size as int) as nat
    }
}

/// Error raised by index writers and readers.
#[derive(Debug, Clone, Copy, PartialEq, Eq, Structural)]
pub enum IndexError {
    /// A chunk offset that is not a multiple of the chunk size.
    UnalignedOffset,
    /// A chunk that lies outside the indexed file.
    OutOfRange,
    /// A chunk whose size is not the chunk size and that does not end the file.
    WrongChunkSize,
    /// A slot written twice.
    SlotWrittenTwice,
    /// Slots left unwritten at close.
    MissingChunks,
    /// Data cloned from an index with another chunk count.
    CountMismatch,
    /// A chunk that does not start where the previous one ended.
    OffsetMismatch,
    /// An index that is too large to hold.
    TooLarge,
    /// Index file data that is too short, has a wrong magic or a bad length.
    BadFile,
}

/// File magic of fixed index files, version 1.0.
pub const FIXED_SIZED_CHUNK_INDEX_1_0: [u8; 8] = [47, 127, 65, 237, 145, 253, 15, 205];

/// File magic of dynamic index files, version 1.0.
pub const DYNAMIC_SIZED_CHUNK_INDEX_1_0: [u8; 8] = [28, 145, 78, 165, 25, 186, 179, 205];

pub open spec fn fixed_magic() -> Seq<u8> {
    seq![47u8, 127u8, 65u8, 237u8, 145u8, 253u8, 15u8, 205u8]
}

pub open spec fn dynamic_magic() -> Seq<u8> {
    seq![28u8, 145u8, 78u8, 165u8, 25u8, 186u8, 179u8, 205u8]
}

/// Number of chunks of a fixed index (see `fixed_chunk_count`).
pub fn chunk_count(size: u64, chunk_size: u64) -> (r: u64)
    requires
        chunk_size > 0,
    ensures
        r == fixed_chunk_count(size as nat, chunk_size as nat),
{
    let q = size / chunk_size;
    let rem = size % chunk_size;
    assert(size == chunk_size * q + rem) by (nonlinear_arith)
        requires
            chunk_size > 0,
            q == size / chunk_size,
            rem == size % chunk_size,
    ;
    if rem != 0 {
        assert(q < u64::MAX) by (nonlinear_arith)
            requires
                size == chunk_size * q + rem,
                rem > 0,
                chunk_size > rem,
                size <= u64::MAX,
        ;
        assert(q + 1 == fixed_chunk_count(size as nat, chunk_size as nat)) by (nonlinear_arith)
            requires
                size == chunk_size * q + rem,
                0 < rem < chunk_size,
        {
            assert((size + chunk_size - 1) == chunk_size * (q + 1) + (rem - 1));
            vstd::arithmetic::div_mod::lemma_fundamental_div_mod_converse(
                size + chunk_size - 1,
                chunk_size as int,
                q + 1,
                rem - 1,
            );
        }
        q + 1
    } else {
        assert(q == fixed_chunk_count(size as nat, chunk_size as nat)) by (nonlinear_arith)
            requires
                size == chunk_size * q,
                chunk_size > 0,
        {
            assert((size + chunk_size - 1) == chunk_size * q + (chunk_size - 1));
            vstd::arithmetic::div_mod::lemma_fundamental_div_mod_converse(
                size + chunk_size - 1,
                chunk_size as int,
                q as int,
                chunk_size - 1,
            );
        }
        q
    }
}

/// A fixed index being written: one slot per chunk, the slots filled by
/// `add_chunk` marked as written.
pub struct FixedIndexWriter {
    size: u64,
    chunk_size: u64,
    digests: Vec<Digest>,
    written: Vec<bool>,
}

impl FixedIndexWriter {
    pub closed spec fn spec_size(&self) -> u64 {
        self.size
    }

    pub closed spec fn spec_chunk_size(&self) -> u64 {
        self.chunk_size
    }

    /// The digest in each slot.
    pub closed spec fn spec_digests(&self) -> Seq<Digest> {
        self.digests@
    }

    /// Which slots `add_chunk` has filled.
    pub closed spec fn spec_written(&self) -> Seq<bool> {
        self.written@
    }

    pub open spec fn wf(&self) -> bool {
        &&& self.spec_chunk_size() > 0
        &&& self.spec_digests().len() == fixed_chunk_count(
            self.spec_size() as nat,
            self.spec_chunk_size() as nat,
        )
        &&& self.spec_written().len() == self.spec_digests().len()
    }

    /// A writer for a file of `size` bytes in chunks of `chunk_size`, all
    /// slots zero and unwritten.
    pub fn new(size: u64, chunk_size: u64) -> (r: Result<Self, IndexError>)
        requires
            chunk_size > 0,
        ensures
            r is Ok ==> fixed_chunk_count(size as nat, chunk_size as nat) <= usize::MAX,
            r is Ok ==> r->Ok_0.wf() && r->Ok_0.spec_size() == size && r->Ok_0.spec_chunk_size()
                == chunk_size && (forall|i: int|
                0 <= i < r->Ok_0.spec_written().len() ==> !#[trigger] r->Ok_0.spec_written()[i]),
            r is Err ==> r == Err::<Self, IndexError>(IndexError::TooLarge) && fixed_chunk_count(
                size as nat,
                chunk_size as nat,
            ) > usize::MAX,
    {
        let count = chunk_count(size, chunk_size);
        if count > usize::MAX as u64 {
            return Err(IndexError::TooLarge);
        }
        let mut digests: Vec<Digest> = Vec::new();
        let mut written: Vec<bool> = Vec::new();
        let mut i: u64 = 0;
        while i < count
            invariant
                0 <= i <= count,
                digests@.len() == i,
                written@.len() == i,
                forall|j: int| 0 <= j < i ==> !#[trigger] written@[j],
            decreases count - i,
        {
            digests.push([0u8; 32]);
            written.push(false);
            i = i + 1;
        }
        Ok(FixedIndexWriter { size, chunk_size, digests, written })
    }

    /// Fill all slots from a previous index with the same chunk count
    /// (incremental backup); no slot counts as written.
    pub fn clone_data_from(&mut self, previous: &[Digest]) -> (r: Result<(), IndexError>)
        requires
            old(self).wf(),
        ensures
            final(self).wf(),
            final(self).spec_size() == old(self).spec_size(),
            final(self).spec_chunk_size() == old(self).spec_chunk_size(),
            final(self).spec_written() == old(self).spec_written(),
            previous@.len() == old(self).spec_digests().len() ==> r is Ok && final(self).spec_digests()
                == previous@,
            previous@.len() != old(self).spec_digests().len() ==> r == Err::<(), IndexError>(
                IndexError::CountMismatch,
            ) && final(self).spec_digests() == old(self).spec_digests(),
    {
        if previous.len() != self.digests.len() {
            return Err(IndexError::CountMismatch);
        }
        let mut ds: Vec<Digest> = Vec::new();
        let mut i: usize = 0;
        while i < previous.len()
            invariant
                0 <= i <= previous@.len(),
                ds@ == previous@.subrange(0, i as int),
            decreases previous@.len() - i,
        {
            ds.push(previous[i]);
            assert(ds@ =~= previous@.subrange(0, i + 1));
            i = i + 1;
        }
        assert(ds@ =~= previous@);
        self.digests = ds;
        Ok(())
    }

    /// Number of slots.
    pub fn index_count(&self) -> (r: usize)
        ensures
            r == self.spec_digests().len(),
    {
        self.digests.len()
    }

    /// The chunk size.
    pub fn chunk_size_of(&self) -> (r: u64)
        ensures
            r == self.spec_chunk_size(),
    {
        self.chunk_size
    }

    /// The size of the indexed file.
    pub fn file_size(&self) -> (r: u64)
        ensures
            r == self.spec_size(),
    {
        self.size
    }

    /// A copy of this writer.
    pub fn duplicate(&self) -> (r: Self)
        ensures
            r.spec_size() == self.spec_size(),
            r.spec_chunk_size() == self.spec_chunk_size(),
            r.spec_digests() == self.spec_digests(),
            r.spec_written() == self.spec_written(),
            self.wf() ==> r.wf(),
    {
        let mut digests: Vec<Digest> = Vec::new();
        let mut written: Vec<bool> = Vec::new();
        let mut i: usize = 0;
        while i < self.digests.len()
            invariant
                0 <= i <= self.digests@.len(),
                digests@ == self.digests@.subrange(0, i as int),
            decreases self.digests@.len() - i,
        {
            digests.push(self.digests[i]);
            assert(digests@ =~= self.digests@.subrange(0, i + 1));
            i = i + 1;
        }
        let mut j: usize = 0;
        while j < self.written.len()
            invariant
                0 <= j <= self.written@.len(),
                written@ == self.written@.subrange(0, j as int),
            decreases self.written@.len() - j,
        {
            written.push(self.written[j]);
            assert(written@ =~= self.written@.subrange(0, j + 1));
            j = j + 1;
        }
        assert(digests@ =~= self.digests@);
        assert(written@ =~= self.written@);
        FixedIndexWriter { size: self.size, chunk_size: self.chunk_size, digests, written }
    }

    /// Store `digest` for the chunk of `size` bytes at `offset`.
    pub fn add_chunk(&mut self, offset: u64, size: u64, digest: &Digest) -> (r: Result<(), IndexError>)
        requires
            old(self).wf(),
        ensures
            final(self).wf(),
            final(self).spec_size() == old(self).spec_size(),
            final(self).spec_chunk_size() == old(self).spec_chunk_size(),
            ({
                let cs = old(self).spec_chunk_size() as int;
                let pos = offset as int / cs;
                let ok = offset as int % cs == 0 && pos < old(self).spec_digests().len() && offset + size
                    <= old(self).spec_size() && (size == cs || offset + size == old(self).spec_size())
                    && !old(self).spec_written()[pos];
                &&& ok ==> r is Ok && final(self).spec_digests() == old(self).spec_digests().update(
                    pos,
                    *digest,
                ) && final(self).spec_written() == old(self).spec_written().update(pos, true)
                &&& !ok ==> r is Err && final(self).spec_digests() == old(self).spec_digests()
                    && final(self).spec_written() == old(self).spec_written()
            }),
    {
        if offset % self.chunk_size != 0 {
            return Err(IndexError::UnalignedOffset);
        }
        let pos = offset / self.chunk_size;
        if pos >= self.digests.len() as u64 {
            return Err(IndexError::OutOfRange);
        }
        if size > self.size || offset > self.size - size {
            return Err(IndexError::OutOfRange);
        }
        if size != self.chunk_size && offset + size != self.size {
            return Err(IndexError::WrongChunkSize);
        }
        let pos = pos as usize;
        if self.written[pos] {
            return Err(IndexError::SlotWrittenTwice);
        }
        self.digests.set(pos, *digest);
        self.written.set(pos, true);
        Ok(())
    }

    /// Whether every slot was written.
    pub fn is_complete(&self) -> (r: bool)
        ensures
            r == forall|i: int| 0 <= i < self.spec_written().len() ==> #[trigger] self.spec_written()[i],
    {
        let mut i: usize = 0;
        while i < self.written.len()
            invariant
                0 <= i <= self.written@.len(),
                forall|j: int| 0 <= j < i ==> #[trigger] self.written@[j],
            decreases self.written@.len() - i,
        {
            if !self.written[i] {
                assert(!self.spec_written()[i as int]);
                return false;
            }
            i = i + 1;
        }
        true
    }

    /// The index-level checksum and the file size. Unless the index is
    /// incremental, every slot must have been written.
    pub fn close(&self, incremental: bool) -> (r: Result<(Digest, u64), IndexError>)
        ensures
            (incremental || forall|i: int|
                0 <= i < self.spec_written().len() ==> #[trigger] self.spec_written()[i]) ==> r is Ok
                && r->Ok_0.0@ == index_csum_spec(self.spec_digests()) && r->Ok_0.1 == self.spec_size(),
            !(incremental || forall|i: int|
                0 <= i < self.spec_written().len() ==> #[trigger] self.spec_written()[i]) ==> r == Err::<
                (Digest, u64),
                IndexError,
            >(IndexError::MissingChunks),
    {
        if !incremental && !self.is_complete() {
            return Err(IndexError::MissingChunks);
        }
        Ok((compute_index_csum(self.digests.as_slice()), self.size))
    }

    /// The index file: magic, size and chunk size (little-endian), the
    /// checksum, and the digests.
    pub fn to_file_bytes(&self) -> (r: Vec<u8>)
        ensures
            r@ == fixed_file_spec(self.spec_size(), self.spec_chunk_size(), self.spec_digests()),
    {
        let mut out: Vec<u8> = Vec::new();
        append_bytes(&mut out, &FIXED_SIZED_CHUNK_INDEX_1_0);
        push_le_u64(&mut out, self.size);
        push_le_u64(&mut out, self.chunk_size);
        let csum = compute_index_csum(self.digests.as_slice());
        append_bytes(&mut out, csum.as_slice());
        append_digests(&mut out, self.digests.as_slice());
        assert(FIXED_SIZED_CHUNK_INDEX_1_0@ =~= fixed_magic());
        out
    }
}

/// The bytes of a fixed index file.
pub open spec fn fixed_file_spec(size: u64, chunk_size: u64, ds: Seq<Digest>) -> Seq<u8> {
    fixed_magic() + le_bytes_spec(size) + le_bytes_spec(chunk_size) + index_csum_spec(ds)
        + concat_digests(ds)
}

/// The 32 bytes at digest position `i` of `b`, from `base` on.
pub open spec fn digest_at(b: Seq<u8>, base: int, i: int) -> Seq<u8> {
    b.subrange(base + 32 * i, base + 32 * i + 32)
}

/// What a fixed index file holds: size, chunk size, stored checksum and
/// the bytes of each digest.
pub open spec fn parse_fixed_spec(b: Seq<u8>) -> Option<(u64, u64, Seq<u8>, Seq<Seq<u8>>)> {
    if b.len() < 56 || b.subrange(0, 8) != fixed_magic() {
        None
    } else {
        let size = le_u64_spec(b.subrange(8, 16)) as u64;
        let cs = le_u64_spec(b.subrange(16, 24)) as u64;
        let n = fixed_chunk_count(size as nat, cs as nat);
        if cs == 0 || b.len() != 56 + 32 * n {
            None
        } else {
            Some((size, cs, b.subrange(24, 56), Seq::new(n, |i: int| digest_at(b, 56, i))))
        }
    }
}

proof fn lemma_concat_views_len(vs: Seq<Seq<u8>>)
    requires
        forall|i: int| 0 <= i < vs.len() ==> (#[trigger] vs[i]).len() == 32,
    ensures
        concat_views(vs).len() == 32 * vs.len(),
        forall|i: int|
            0 <= i < vs.len() ==> #[trigger] concat_views(vs).subrange(32 * i, 32 * i + 32) == vs[i],
    decreases vs.len(),
{
    if vs.len() > 0 {
        let d = vs.drop_last();
        assert forall|i: int| 0 <= i < d.len() implies (#[trigger] d[i]).len() == 32 by {
            assert(d[i] == vs[i]);
        }
        lemma_concat_views_len(d);
        let c = concat_views(vs);
        assert forall|i: int| 0 <= i < vs.len() implies #[trigger] c.subrange(32 * i, 32 * i + 32)
            == vs[i] by {
            if i < d.len() {
                assert(c.subrange(32 * i, 32 * i + 32) =~= concat_views(d).subrange(32 * i, 32 * i + 32));
                assert(d[i] == vs[i]);
            } else {
                assert(c.subrange(32 * i, 32 * i + 32) =~= vs.last());
            }
        }
    }
}

/// Reading back a written fixed index gives the size, chunk size and
/// digests written, so the checksum recomputed on the reopened index is the
/// one computed when it was written (and stored in it).
pub proof fn lemma_fixed_index_csum_round_trip(size: u64, chunk_size: u64, ds: Seq<Digest>)
    requires
        chunk_size > 0,
        ds.len() == fixed_chunk_count(size as nat, chunk_size as nat),
    ensures
        match parse_fixed_spec(fixed_file_spec(size, chunk_size, ds)) {
            Some((s, c, stored, vs)) => s == size && c == chunk_size && vs == dviews(ds)
                && views_csum_spec(vs) == index_csum_spec(ds) && stored == index_csum_spec(ds),
            None => false,
        },
{
    let b = fixed_file_spec(size, chunk_size, ds);
    let vs = dviews(ds);
    crate::bytes::lemma_le_u64_round_trip(size);
    crate::bytes::lemma_le_u64_round_trip(chunk_size);
    assert forall|i: int| 0 <= i < vs.len() implies (#[trigger] vs[i]).len() == 32 by {}
    lemma_concat_views_len(vs);
    let csum = index_csum_spec(ds);
    assert(csum.len() == 32);
    assert(b.subrange(0, 8) =~= fixed_magic());
    assert(b.subrange(8, 16) =~= le_bytes_spec(size));
    assert(b.subrange(16, 24) =~= le_bytes_spec(chunk_size));
    assert(b.subrange(24, 56) =~= csum);
    let n = fixed_chunk_count(size as nat, chunk_size as nat);
    let parsed = Seq::new(n, |i: int| digest_at(b, 56, i));
    assert forall|i: int| 0 <= i < n implies parsed[i] == vs[i] by {
        assert(digest_at(b, 56, i) =~= concat_views(vs).subrange(32 * i, 32 * i + 32));
    }
    assert(parsed =~= vs);
}

/// Byte length of chunk `i` of a fixed index.
pub open spec fn fixed_chunk_len(size: u64, chunk_size: u64, i: int) -> int {
    let start = if i * chunk_size <= size { i * chunk_size } else { size as int };
    let end = if (i + 1) * chunk_size <= size { (i + 1) * chunk_size } else { size as int };
    end - start
}

/// `k * chunk_size`, or `size` where that is larger.
fn bounded_offset(k: u64, chunk_size: u64, size: u64) -> (r: u64)
    requires
        chunk_size > 0,
    ensures
        r == if k * chunk_size <= size { k * chunk_size } else { size as int },
        r <= size,
{
    if k > size / chunk_size {
        assert(k * chunk_size > size) by (nonlinear_arith)
            requires
                k > size / chunk_size,
                chunk_size > 0,
        {
            assert(size == chunk_size * (size / chunk_size) + size % chunk_size);
            assert(k * chunk_size >= (size / chunk_size + 1) * chunk_size);
        }
        size
    } else {
        assert(k * chunk_size <= size) by (nonlinear_arith)
            requires
                k <= size / chunk_size,
                chunk_size > 0,
        {
            assert(size == chunk_size * (size / chunk_size) + size % chunk_size);
            assert(k * chunk_size <= (size / chunk_size) * chunk_size);
        }
        k * chunk_size
    }
}

/// A fixed index read from its file.
pub struct FixedIndexReader {
    size: u64,
    chunk_size: u64,
    stored_csum: Digest,
    digests: Vec<Digest>,
}

impl FixedIndexReader {
    pub closed spec fn spec_size(&self) -> u64 {
        self.size
    }

    pub closed spec fn spec_chunk_size(&self) -> u64 {
        self.chunk_size
    }

    pub closed spec fn spec_stored_csum(&self) -> Seq<u8> {
        self.stored_csum@
    }

    pub closed spec fn spec_digests(&self) -> Seq<Seq<u8>> {
        dviews(self.digests@)
    }

    /// Open a fixed index from the bytes of its file.
    pub fn open(data: &[u8]) -> (r: Result<Self, IndexError>)
        ensures
            match parse_fixed_spec(data@) {
                Some((size, cs, stored, vs)) => r is Ok && r->Ok_0.spec_size() == size
                    && r->Ok_0.spec_chunk_size() == cs && r->Ok_0.spec_stored_csum() == stored
                    && r->Ok_0.spec_digests() == vs,
                None => r == Err::<Self, IndexError>(IndexError::BadFile),
            },
    {
        if data.len() < 56 || !range_equals(data, 0, &FIXED_SIZED_CHUNK_INDEX_1_0) {
            proof {
                assert(FIXED_SIZED_CHUNK_INDEX_1_0@ =~= fixed_magic());
            }
            return Err(IndexError::BadFile);
        }
        proof {
            assert(FIXED_SIZED_CHUNK_INDEX_1_0@ =~= fixed_magic());
        }
        let size = read_le_u64(data, 8);
        let chunk_size = read_le_u64(data, 16);
        if chunk_size == 0 {
            return Err(IndexError::BadFile);
        }
        let count = chunk_count(size, chunk_size);
        let body = data.len() - 56;
        if body % 32 != 0 || (body / 32) as u64 != count {
            return Err(IndexError::BadFile);
        }
        let stored_csum = read_digest(data, 24);
        let n = body / 32;
        let dlen = data.len();
        let mut digests: Vec<Digest> = Vec::new();
        let mut i: usize = 0;
        while i < n
            invariant
                dlen == data@.len(),
                0 <= i <= n,
                data@.len() == 56 + 32 * n,
                digests@.len() == i,
                forall|j: int| 0 <= j < i ==> (#[trigger] digests@[j])@ == digest_at(data@, 56, j),
            decreases n - i,
        {
            let d = read_digest(data, 56 + 32 * i);
            digests.push(d);
            i = i + 1;
        }
        let r = FixedIndexReader { size, chunk_size, stored_csum, digests };
        proof {
            let vs = Seq::new(n as nat, |j: int| digest_at(data@, 56, j));
            assert(r.spec_digests() =~= vs);
        }
        Ok(r)
    }

    /// Number of chunks.
    pub fn index_count(&self) -> (r: usize)
        ensures
            r == self.spec_digests().len(),
    {
        self.digests.len()
    }

    /// The digests of all chunks.
    pub fn digest_list(&self) -> (r: Vec<Digest>)
        ensures
            dviews(r@) == self.spec_digests(),
    {
        let mut r: Vec<Digest> = Vec::new();
        let mut i: usize = 0;
        while i < self.digests.len()
            invariant
                0 <= i <= self.digests@.len(),
                r@ == self.digests@.subrange(0, i as int),
            decreases self.digests@.len() - i,
        {
            r.push(self.digests[i]);
            assert(r@ =~= self.digests@.subrange(0, i + 1));
            i = i + 1;
        }
        assert(r@ =~= self.digests@);
        r
    }

    /// Digest and byte length of every chunk: chunk `i` covers
    /// `[i * chunk size, (i + 1) * chunk size)` cut at the file size.
    pub fn chunk_list(&self) -> (r: Vec<(Digest, u64)>)
        ensures
            self.spec_chunk_size() == 0 ==> r@.len() == 0,
            self.spec_chunk_size() > 0 ==> r@.len() == self.spec_digests().len(),
            forall|i: int| 0 <= i < r@.len() ==> (#[trigger] r@[i]).0@ == self.spec_digests()[i]
                && r@[i].1 == fixed_chunk_len(self.spec_size(), self.spec_chunk_size(), i),
    {
        let mut r: Vec<(Digest, u64)> = Vec::new();
        if self.chunk_size == 0 {
            return r;
        }
        let mut i: usize = 0;
        while i < self.digests.len()
            invariant
                0 <= i <= self.digests@.len(),
                self.chunk_size > 0,
                r@.len() == i,
                forall|j: int| 0 <= j < i ==> (#[trigger] r@[j]).0@ == self.spec_digests()[j]
                    && r@[j].1 == fixed_chunk_len(self.spec_size(), self.spec_chunk_size(), j),
            decreases self.digests@.len() - i,
        {
            let start = bounded_offset(i as u64, self.chunk_size, self.size);
            let end = if i as u64 == u64::MAX {
                self.size
            } else {
                bounded_offset(i as u64 + 1, self.chunk_size, self.size)
            };
            proof {
                assert(start <= end) by (nonlinear_arith)
                    requires
                        start == if i * self.chunk_size <= self.size { i * self.chunk_size } else { self.size as int },
                        i as u64 == u64::MAX ==> end == self.size,
                        i as u64 != u64::MAX ==> end == if (i + 1) * self.chunk_size <= self.size { (i + 1) * self.chunk_size } else { self.size as int },
                        self.chunk_size > 0,
                        i as u64 == u64::MAX ==> start <= self.size,
                        start <= self.size,
                ;
                if i as u64 == u64::MAX {
                    assert((i + 1) * self.chunk_size > self.size) by (nonlinear_arith)
                        requires
                            i == u64::MAX,
                            self.chunk_size > 0,
                            self.size <= u64::MAX,
                    ;
                }
            }
            r.push((self.digests[i], end - start));
            i = i + 1;
        }
        r
    }

    /// The checksum recomputed over the digests, and the file size.
    pub fn compute_csum(&self) -> (r: (Digest, u64))
        ensures
            r.0@ == views_csum_spec(self.spec_digests()),
            r.1 == self.spec_size(),
    {
        (compute_index_csum(self.digests.as_slice()), self.size)
    }
}

/// A dynamic index being written: for each chunk its end offset and digest.
pub struct DynamicIndexWriter {
    entries: Vec<(u64, Digest)>,
}

/// The digests of the entries.
pub open spec fn entry_digests(es: Seq<(u64, Digest)>) -> Seq<Digest> {
    es.map_values(|e: (u64, Digest)| e.1)
}

/// Where the next chunk must start: the end of the last one.
pub open spec fn dynamic_end(es: Seq<(u64, Digest)>) -> u64 {
    if es.len() == 0 {
        0
    } else {
        es.last().0
    }
}

impl DynamicIndexWriter {
    pub closed spec fn spec_entries(&self) -> Seq<(u64, Digest)> {
        self.entries@
    }

    /// An empty dynamic index.
    pub fn new() -> (r: Self)
        ensures
            r.spec_entries().len() == 0,
    {
        DynamicIndexWriter { entries: Vec::new() }
    }

    /// The end offset of the last chunk, zero for none.
    pub fn end_offset(&self) -> (r: u64)
        ensures
            r == dynamic_end(self.spec_entries()),
    {
        if self.entries.len() == 0 {
            0
        } else {
            self.entries[self.entries.len() - 1].0
        }
    }

    /// Number of chunks.
    pub fn index_count(&self) -> (r: usize)
        ensures
            r == self.spec_entries().len(),
    {
        self.entries.len()
    }

    /// A copy of this writer.
    pub fn duplicate(&self) -> (r: Self)
        ensures
            r.spec_entries() == self.spec_entries(),
    {
        let mut entries: Vec<(u64, Digest)> = Vec::new();
        let mut i: usize = 0;
        while i < self.entries.len()
            invariant
                0 <= i <= self.entries@.len(),
                entries@ == self.entries@.subrange(0, i as int),
            decreases self.entries@.len() - i,
        {
            entries.push(self.entries[i]);
            assert(entries@ =~= self.entries@.subrange(0, i + 1));
            i = i + 1;
        }
        assert(entries@ =~= self.entries@);
        DynamicIndexWriter { entries }
    }

    /// Append the chunk of `size` bytes at `offset`; it must start where
    /// the previous chunk ended, so end offsets strictly increase.
    pub fn add_chunk(&mut self, offset: u64, size: u64, digest: &Digest) -> (r: Result<(), IndexError>)
        ensures
            ({
                let end = dynamic_end(old(self).spec_entries());
                let ok = offset == end && size > 0 && offset + size <= u64::MAX;
                &&& ok ==> r is Ok && final(self).spec_entries() == old(self).spec_entries().push(
                    ((offset + size) as u64, *digest),
                )
                &&& !ok ==> r is Err && final(self).spec_entries() == old(self).spec_entries()
            }),
    {
        if offset != self.end_offset() {
            return Err(IndexError::OffsetMismatch);
        }
        if size == 0 || size > u64::MAX - offset {
            return Err(IndexError::OutOfRange);
        }
        self.entries.push((offset + size, *digest));
        Ok(())
    }

    fn digests(&self) -> (r: Vec<Digest>)
        ensures
            r@ == entry_digests(self.spec_entries()),
    {
        let mut r: Vec<Digest> = Vec::new();
        let mut i: usize = 0;
        while i < self.entries.len()
            invariant
                0 <= i <= self.entries@.len(),
                r@ == entry_digests(self.entries@.subrange(0, i as int)),
            decreases self.entries@.len() - i,
        {
            r.push(self.entries[i].1);
            assert(entry_digests(self.entries@.subrange(0, i + 1)) =~= entry_digests(
                self.entries@.subrange(0, i as int),
            ).push(self.entries@[i as int].1));
            i = i + 1;
        }
        assert(self.entries@.subrange(0, i as int) =~= self.entries@);
        r
    }

    /// The index-level checksum and the total size.
    pub fn close(&self) -> (r: (Digest, u64))
        ensures
            r.0@ == index_csum_spec(entry_digests(self.spec_entries())),
            r.1 == dynamic_end(self.spec_entries()),
    {
        let ds = self.digests();
        (compute_index_csum(ds.as_slice()), self.end_offset())
    }

    /// The index file: magic, checksum, then each end offset
    /// (little-endian) with its digest.
    pub fn to_file_bytes(&self) -> (r: Vec<u8>)
        ensures
            r@ == dynamic_file_spec(self.spec_entries()),
    {
        let mut out: Vec<u8> = Vec::new();
        append_bytes(&mut out, &DYNAMIC_SIZED_CHUNK_INDEX_1_0);
        let (csum, _) = self.close();
        append_bytes(&mut out, csum.as_slice());
        let ghost head = out@;
        let mut i: usize = 0;
        while i < self.entries.len()
            invariant
                0 <= i <= self.entries@.len(),
                out@ == head + dynamic_records(self.entries@.subrange(0, i as int)),
            decreases self.entries@.len() - i,
        {
            push_le_u64(&mut out, self.entries[i].0);
            append_bytes(&mut out, self.entries[i].1.as_slice());
            proof {
                let s = self.entries@.subrange(0, i + 1);
                assert(s.drop_last() =~= self.entries@.subrange(0, i as int));
            }
            i = i + 1;
        }
        assert(self.entries@.subrange(0, i as int) =~= self.entries@);
        assert(DYNAMIC_SIZED_CHUNK_INDEX_1_0@ =~= dynamic_magic());
        out
    }
}

/// The records of a dynamic index file.
pub open spec fn dynamic_records(es: Seq<(u64, Digest)>) -> Seq<u8>
    decreases es.len(),
{
    if es.len() == 0 {
        Seq::empty()
    } else {
        dynamic_records(es.drop_last()) + le_bytes_spec(es.last().0) + es.last().1@
    }
}

/// The bytes of a dynamic index file.
pub open spec fn dynamic_file_spec(es: Seq<(u64, Digest)>) -> Seq<u8> {
    dynamic_magic() + index_csum_spec(entry_digests(es)) + dynamic_records(es)
}

/// What a dynamic index file holds: the stored checksum, and for each
/// record its end offset and digest bytes.
pub open spec fn parse_dynamic_spec(b: Seq<u8>) -> Option<(Seq<u8>, Seq<(u64, Seq<u8>)>)> {
    if b.len() < 40 || b.subrange(0, 8) != dynamic_magic() || (b.len() - 40) % 40 != 0 {
        None
    } else {
        let n = (b.len() - 40) / 40;
        Some(
            (
                b.subrange(8, 40),
                Seq::new(
                    n as nat,
                    |i: int|
                        (
                            le_u64_spec(b.subrange(40 + 40 * i, 48 + 40 * i)) as u64,
                            b.subrange(48 + 40 * i, 80 + 40 * i),
                        ),
                ),
            ),
        )
    }
}

proof fn lemma_dynamic_records(es: Seq<(u64, Digest)>)
    ensures
        dynamic_records(es).len() == 40 * es.len(),
        forall|i: int|
            0 <= i < es.len() ==> #[trigger] dynamic_records(es).subrange(40 * i, 40 * i + 8) == le_bytes_spec(
                es[i].0,
            ) && dynamic_records(es).subrange(40 * i + 8, 40 * i + 40) == es[i].1@,
    decreases es.len(),
{
    if es.len() > 0 {
        let d = es.drop_last();
        lemma_dynamic_records(d);
        crate::bytes::lemma_le_u64_round_trip(es.last().0);
        let r = dynamic_records(es);
        let rd = dynamic_records(d);
        assert forall|i: int| 0 <= i < es.len() implies #[trigger] r.subrange(40 * i, 40 * i + 8) == le_bytes_spec(
            es[i].0,
        ) && r.subrange(40 * i + 8, 40 * i + 40) == es[i].1@ by {
            if i < d.len() {
                assert(r.subrange(40 * i, 40 * i + 8) =~= rd.subrange(40 * i, 40 * i + 8));
                assert(r.subrange(40 * i + 8, 40 * i + 40) =~= rd.subrange(40 * i + 8, 40 * i + 40));
                assert(d[i] == es[i]);
            } else {
                assert(r.subrange(40 * i, 40 * i + 8) =~= le_bytes_spec(es.last().0));
                assert(r.subrange(40 * i + 8, 40 * i + 40) =~= es.last().1@);
            }
        }
    }
}

/// Reading back a written dynamic index gives the end offsets and digests
/// written, so the checksum recomputed on the reopened index, and the one
/// stored in it, are the checksum computed when it was written.
pub proof fn lemma_dynamic_index_csum_round_trip(es: Seq<(u64, Digest)>)
    ensures
        match parse_dynamic_spec(dynamic_file_spec(es)) {
            Some((stored, rs)) => rs == es.map_values(|e: (u64, Digest)| (e.0, e.1@)) && stored
                == index_csum_spec(entry_digests(es)) && views_csum_spec(
                rs.map_values(|e: (u64, Seq<u8>)| e.1),
            ) == index_csum_spec(entry_digests(es)),
            None => false,
        },
{
    let b = dynamic_file_spec(es);
    let csum = index_csum_spec(entry_digests(es));
    lemma_dynamic_records(es);
    assert(csum.len() == 32);
    assert(b.subrange(0, 8) =~= dynamic_magic());
    assert(b.subrange(8, 40) =~= csum);
    assert((b.len() - 40) % 40 == 0 && (b.len() - 40) / 40 == es.len()) by (nonlinear_arith)
        requires
            b.len() == 40 + 40 * es.len(),
    ;
    let rs = parse_dynamic_spec(b)->Some_0.1;
    let want = es.map_values(|e: (u64, Digest)| (e.0, e.1@));
    assert forall|i: int| 0 <= i < es.len() implies rs[i] == want[i] by {
        let rec = dynamic_records(es);
        assert(b.subrange(40 + 40 * i, 48 + 40 * i) =~= rec.subrange(40 * i, 40 * i + 8));
        assert(b.subrange(48 + 40 * i, 80 + 40 * i) =~= rec.subrange(40 * i + 8, 40 * i + 40));
        crate::bytes::lemma_le_u64_round_trip(es[i].0);
    }
    assert(rs =~= want);
    assert(rs.map_values(|e: (u64, Seq<u8>)| e.1) =~= dviews(entry_digests(es)));
}

/// Byte length of chunk `i` of a dynamic index.
pub open spec fn dynamic_chunk_len(es: Seq<(u64, Seq<u8>)>, i: int) -> int {
    let start = if i == 0 {
        0
    } else {
        es[i - 1].0 as int
    };
    if es[i].0 >= start {
        es[i].0 - start
    } else {
        0
    }
}

/// A dynamic index read from its file.
pub struct DynamicIndexReader {
    stored_csum: Digest,
    ends: Vec<u64>,
    digests: Vec<Digest>,
}

impl DynamicIndexReader {
    pub closed spec fn spec_stored_csum(&self) -> Seq<u8> {
        self.stored_csum@
    }

    /// End offset and digest bytes of each chunk.
    pub closed spec fn spec_entries(&self) -> Seq<(u64, Seq<u8>)> {
        Seq::new(self.ends@.len(), |i: int| (self.ends@[i], self.digests@[i]@))
    }

    pub closed spec fn wf(&self) -> bool {
        self.ends@.len() == self.digests@.len()
    }

    /// Open a dynamic index from the bytes of its file.
    pub fn open(data: &[u8]) -> (r: Result<Self, IndexError>)
        ensures
            match parse_dynamic_spec(data@) {
                Some((stored, es)) => r is Ok && r->Ok_0.wf() && r->Ok_0.spec_stored_csum() == stored
                    && r->Ok_0.spec_entries() == es,
                None => r == Err::<Self, IndexError>(IndexError::BadFile),
            },
    {
        if data.len() < 40 || !range_equals(data, 0, &DYNAMIC_SIZED_CHUNK_INDEX_1_0) || (data.len()
            - 40) % 40 != 0 {
            proof {
                assert(DYNAMIC_SIZED_CHUNK_INDEX_1_0@ =~= dynamic_magic());
            }
            return Err(IndexError::BadFile);
        }
        proof {
            assert(DYNAMIC_SIZED_CHUNK_INDEX_1_0@ =~= dynamic_magic());
        }
        let stored_csum = read_digest(data, 8);
        let n = (data.len() - 40) / 40;
        let dlen = data.len();
        let mut ends: Vec<u64> = Vec::new();
        let mut digests: Vec<Digest> = Vec::new();
        let mut i: usize = 0;
        while i < n
            invariant
                dlen == data@.len(),
                0 <= i <= n,
                data@.len() == 40 + 40 * n,
                ends@.len() == i,
                digests@.len() == i,
                forall|j: int|
                    0 <= j < i ==> #[trigger] ends@[j] == le_u64_spec(
                        data@.subrange(40 + 40 * j, 48 + 40 * j),
                    ) as u64 && digests@[j]@ == data@.subrange(48 + 40 * j, 80 + 40 * j),
            decreases n - i,
        {
            let e = read_le_u64(data, 40 + 40 * i);
            let d = read_digest(data, 48 + 40 * i);
            ends.push(e);
            digests.push(d);
            proof {
                assert(ends@[i as int] == le_u64_spec(data@.subrange(40 + 40 * i, 48 + 40 * i)) as u64);
                assert(digests@[i as int]@ == data@.subrange(48 + 40 * i, 80 + 40 * i));
            }
            i = i + 1;
        }
        let r = DynamicIndexReader { stored_csum, ends, digests };
        proof {
            let es = parse_dynamic_spec(data@)->Some_0.1;
            assert(r.spec_entries() =~= es);
        }
        Ok(r)
    }

    /// Number of chunks.
    pub fn index_count(&self) -> (r: usize)
        requires
            self.wf(),
        ensures
            r == self.spec_entries().len(),
    {
        self.ends.len()
    }

    /// The digest of chunk `i` and its byte range.
    pub fn chunk_info(&self, i: usize) -> (r: Option<(Digest, u64, u64)>)
        requires
            self.wf(),
        ensures
            i < self.spec_entries().len() ==> r is Some && r->Some_0.0@ == self.spec_entries()[i as int].1
                && r->Some_0.2 == self.spec_entries()[i as int].0 && r->Some_0.1 == if i == 0 {
                0
            } else {
                self.spec_entries()[i - 1].0
            },
            i >= self.spec_entries().len() ==> r is None,
    {
        if i >= self.ends.len() {
            return None;
        }
        let start = if i == 0 {
            0
        } else {
            self.ends[i - 1]
        };
        Some((self.digests[i], start, self.ends[i]))
    }

    /// Digest and byte length of every chunk: the distance from the end of
    /// the previous chunk (zero for the first) to its own end, zero where
    /// the ends decrease.
    pub fn chunk_list(&self) -> (r: Vec<(Digest, u64)>)
        requires
            self.wf(),
        ensures
            r@.len() == self.spec_entries().len(),
            forall|i: int| 0 <= i < r@.len() ==> (#[trigger] r@[i]).0@ == self.spec_entries()[i].1
                && r@[i].1 == dynamic_chunk_len(self.spec_entries(), i),
    {
        let mut r: Vec<(Digest, u64)> = Vec::new();
        let mut i: usize = 0;
        while i < self.ends.len()
            invariant
                self.wf(),
                0 <= i <= self.ends@.len(),
                r@.len() == i,
                forall|j: int| 0 <= j < i ==> (#[trigger] r@[j]).0@ == self.spec_entries()[j].1
                    && r@[j].1 == dynamic_chunk_len(self.spec_entries(), j),
            decreases self.ends@.len() - i,
        {
            let start = if i == 0 {
                0
            } else {
                self.ends[i - 1]
            };
            let end = self.ends[i];
            let len = if end >= start {
                end - start
            } else {
                0
            };
            r.push((self.digests[i], len));
            i = i + 1;
        }
        r
    }

    /// The checksum recomputed over the digests, and the total size (the
    /// last end offset).
    pub fn compute_csum(&self) -> (r: (Digest, u64))
        requires
            self.wf(),
        ensures
            r.0@ == views_csum_spec(self.spec_entries().map_values(|e: (u64, Seq<u8>)| e.1)),
            r.1 == if self.spec_entries().len() == 0 {
                0
            } else {
                self.spec_entries().last().0
            },
    {
        let csum = compute_index_csum(self.digests.as_slice());
        proof {
            assert(dviews(self.digests@) =~= self.spec_entries().map_values(|e: (u64, Seq<u8>)| e.1));
        }
        let size = if self.ends.len() == 0 {
            0
        } else {
            self.ends[self.ends.len() - 1]
        };
        (csum, size)
    }
}

} // verus!
