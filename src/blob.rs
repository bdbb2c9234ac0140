//! Blob framing: the header that starts every blob (magic, CRC and, by
//! mode, a signature or an IV and tag), the digest check of a chunk's
//! plaintext, and the size checks of a chunk upload.

use vstd::prelude::*;

use crate::bytes::{append_bytes, copy_range, range_equals};
use crate::index::{digest_eq, read_digest, sha256, sha256_of, Digest};

verus! {

/// Error raised while reading or receiving a blob.
#[derive(Debug, Clone, Copy, PartialEq, Eq, Structural)]
pub enum BlobError {
    /// No known magic.
    BadMagic,
    /// Fewer bytes than the header of the mode needs.
    TooShort,
    /// The CRC does not match.
    CrcMismatch,
    /// The signature does not match.
    SignatureMismatch,
    /// The plaintext does not have the expected size.
    SizeMismatch,
    /// The plaintext's SHA-256 is not the chunk's digest.
    DigestMismatch,
    /// More data than announced.
    LargerThanAnnounced,
    /// The upload ended with another size than announced.
    UnexpectedSize,
}

/// How a blob's payload is stored.
#[derive(Debug, Clone, Copy, PartialEq, Eq, Structural)]
pub enum BlobMode {
    Uncompressed,
    Compressed,
    Signed,
    SignedCompressed,
    Encrypted,
    EncryptedCompressed,
}

pub const UNCOMPRESSED_BLOB_MAGIC_1_0: [u8; 8] = [66, 171, 56, 7, 190, 131, 112, 161];
pub const COMPRESSED_BLOB_MAGIC_1_0: [u8; 8] = [49, 185, 88, 66, 111, 182, 163, 127];
pub const ENCRYPTED_BLOB_MAGIC_1_0: [u8; 8] = [123, 103, 133, 190, 34, 45, 76, 240];
pub const ENCR_COMPR_BLOB_MAGIC_1_0: [u8; 8] = [230, 89, 27, 191, 11, 191, 216, 11];
pub const AUTHENTICATED_BLOB_MAGIC_1_0: [u8; 8] = [31, 135, 238, 226, 145, 206, 5, 2];
pub const AUTH_COMPR_BLOB_MAGIC_1_0: [u8; 8] = [126, 166, 15, 190, 145, 31, 169, 96];

/// The mode a magic stands for.
pub open spec fn mode_of_magic(m: Seq<u8>) -> Option<BlobMode> {
    if m == seq![66u8, 171, 56, 7, 190, 131, 112, 161] {
        Some(BlobMode::Uncompressed)
    } else if m == seq![49u8, 185, 88, 66, 111, 182, 163, 127] {
        Some(BlobMode::Compressed)
    } else if m == seq![31u8, 135, 238, 226, 145, 206, 5, 2] {
        Some(BlobMode::Signed)
    } else if m == seq![126u8, 166, 15, 190, 145, 31, 169, 96] {
        Some(BlobMode::SignedCompressed)
    } else if m == seq![123u8, 103, 133, 190, 34, 45, 76, 240] {
        Some(BlobMode::Encrypted)
    } else if m == seq![230u8, 89, 27, 191, 11, 191, 216, 11] {
        Some(BlobMode::EncryptedCompressed)
    } else {
        None
    }
}

/// Header length of a mode: magic and CRC, plus a 32-byte signature for
/// signed blobs, or a 16-byte IV and a 16-byte tag for encrypted ones.
pub open spec fn header_len(mode: BlobMode) -> nat {
    match mode {
        BlobMode::Uncompressed | BlobMode::Compressed => 12,
        _ => 44,
    }
}

/// The little-endian value of four bytes.
pub open spec fn le_u32_spec(b: Seq<u8>) -> nat {
    b[0] as nat + 256 * (b[1] as nat + 256 * (b[2] as nat + 256 * b[3] as nat))
}

/// A parsed blob header.
#[derive(Debug, Clone, Copy, PartialEq, Eq)]
pub struct BlobHeader {
    pub mode: BlobMode,
    /// The CRC32 stored in the header, over all bytes after the CRC field.
    pub crc: u32,
    /// Signature (signed) or IV and tag (encrypted); zero otherwise.
    pub auth: Digest,
    /// Where the payload starts.
    pub payload_start: usize,
}

fn mode_from_magic(data: &[u8]) -> (r: Option<BlobMode>)
    requires
        data@.len() >= 8,
    ensures
        r == mode_of_magic(data@.subrange(0, 8)),
{
    proof {
        assert(UNCOMPRESSED_BLOB_MAGIC_1_0@ =~= seq![66u8, 171, 56, 7, 190, 131, 112, 161]);
        assert(COMPRESSED_BLOB_MAGIC_1_0@ =~= seq![49u8, 185, 88, 66, 111, 182, 163, 127]);
        assert(AUTHENTICATED_BLOB_MAGIC_1_0@ =~= seq![31u8, 135, 238, 226, 145, 206, 5, 2]);
        assert(AUTH_COMPR_BLOB_MAGIC_1_0@ =~= seq![126u8, 166, 15, 190, 145, 31, 169, 96]);
        assert(ENCRYPTED_BLOB_MAGIC_1_0@ =~= seq![123u8, 103, 133, 190, 34, 45, 76, 240]);
        assert(ENCR_COMPR_BLOB_MAGIC_1_0@ =~= seq![230u8, 89, 27, 191, 11, 191, 216, 11]);
    }
    if range_equals(data, 0, &UNCOMPRESSED_BLOB_MAGIC_1_0) {
        Some(BlobMode::Uncompressed)
    } else if range_equals(data, 0, &COMPRESSED_BLOB_MAGIC_1_0) {
        Some(BlobMode::Compressed)
    } else if range_equals(data, 0, &AUTHENTICATED_BLOB_MAGIC_1_0) {
        Some(BlobMode::Signed)
    } else if range_equals(data, 0, &AUTH_COMPR_BLOB_MAGIC_1_0) {
        Some(BlobMode::SignedCompressed)
    } else if range_equals(data, 0, &ENCRYPTED_BLOB_MAGIC_1_0) {
        Some(BlobMode::Encrypted)
    } else if range_equals(data, 0, &ENCR_COMPR_BLOB_MAGIC_1_0) {
        Some(BlobMode::EncryptedCompressed)
    } else {
        None
    }
}

/// Read the header of a blob: its mode from the magic, the stored CRC, and
/// the signature or IV and tag.
pub fn parse_blob_header(data: &[u8]) -> (r: Result<BlobHeader, BlobError>)
    ensures
        data@.len() < 8 ==> r == Err::<BlobHeader, BlobError>(BlobError::TooShort),
        data@.len() >= 8 ==> match mode_of_magic(data@.subrange(0, 8)) {
            None => r == Err::<BlobHeader, BlobError>(BlobError::BadMagic),
            Some(mode) => if data@.len() < header_len(mode) {
                r == Err::<BlobHeader, BlobError>(BlobError::TooShort)
            } else {
                r is Ok && r->Ok_0.mode == mode && r->Ok_0.crc == le_u32_spec(data@.subrange(8, 12))
                    && r->Ok_0.payload_start == header_len(mode) && (header_len(mode) == 44
                    ==> r->Ok_0.auth@ == data@.subrange(12, 44))
            },
        },
{
    if data.len() < 8 {
        return Err(BlobError::TooShort);
    }
    let mode = match mode_from_magic(data) {
        Some(m) => m,
        None => return Err(BlobError::BadMagic),
    };
    let hlen: usize = match mode {
        BlobMode::Uncompressed | BlobMode::Compressed => 12,
        _ => 44,
    };
    if data.len() < hlen {
        return Err(BlobError::TooShort);
    }
    let crc = data[8] as u32 + 256 * (data[9] as u32 + 256 * (data[10] as u32 + 256 * data[11] as u32));
    let auth = if hlen == 44 {
        read_digest(data, 12)
    } else {
        [0u8; 32]
    };
    Ok(BlobHeader { mode, crc, auth, payload_start: hlen })
}

/// Compare the CRC computed over a blob with the one stored in its header.
pub fn check_crc(header: &BlobHeader, computed: u32) -> (r: Result<(), BlobError>)
    ensures
        header.crc == computed ==> r is Ok,
        header.crc != computed ==> r == Err::<(), BlobError>(BlobError::CrcMismatch),
{
    if header.crc != computed {
        Err(BlobError::CrcMismatch)
    } else {
        Ok(())
    }
}

/// Compare the signature computed over a signed blob's payload with the
/// one stored in its header; without a key nothing is computed and
/// nothing compared.
pub fn check_signature(header: &BlobHeader, computed: Option<Digest>) -> (r: Result<(), BlobError>)
    ensures
        match computed {
            Some(h) => (h@ == header.auth@ ==> r is Ok) && (h@ != header.auth@ ==> r == Err::<
                (),
                BlobError,
            >(BlobError::SignatureMismatch)),
            None => r is Ok,
        },
{
    match computed {
        Some(h) => {
            if digest_eq(&h, &header.auth) {
                Ok(())
            } else {
                Err(BlobError::SignatureMismatch)
            }
        },
        None => Ok(()),
    }
}

/// Check a chunk's decoded plaintext: it must have the expected size, and
/// its SHA-256 must be the digest the chunk is stored under.
pub fn verify_unencrypted(plain: &[u8], expected_size: usize, digest: &Digest) -> (r: Result<(), BlobError>)
    ensures
        r is Ok <==> (plain@.len() == expected_size && sha256_of(plain@)@ == digest@),
        plain@.len() != expected_size ==> r == Err::<(), BlobError>(BlobError::SizeMismatch),
        plain@.len() == expected_size && sha256_of(plain@)@ != digest@ ==> r == Err::<(), BlobError>(
            BlobError::DigestMismatch,
        ),
{
    if plain.len() != expected_size {
        return Err(BlobError::SizeMismatch);
    }
    let computed = sha256(plain);
    if !digest_eq(&computed, digest) {
        return Err(BlobError::DigestMismatch);
    }
    Ok(())
}

/// A chunk upload in progress: the body is collected up to the announced
/// encoded size.
pub struct UploadChunk {
    digest: Digest,
    size: u32,
    encoded_size: u32,
    raw_data: Vec<u8>,
}

impl UploadChunk {
    pub closed spec fn spec_digest(&self) -> Digest {
        self.digest
    }

    pub closed spec fn spec_size(&self) -> u32 {
        self.size
    }

    pub closed spec fn spec_encoded_size(&self) -> u32 {
        self.encoded_size
    }

    /// The body received so far.
    pub closed spec fn spec_received(&self) -> Seq<u8> {
        self.raw_data@
    }

    /// Start receiving a chunk announced with its digest, plaintext size and
    /// encoded size.
    pub fn new(digest: Digest, size: u32, encoded_size: u32) -> (r: Self)
        ensures
            r.spec_digest() == digest,
            r.spec_size() == size,
            r.spec_encoded_size() == encoded_size,
            r.spec_received().len() == 0,
    {
        UploadChunk { digest, size, encoded_size, raw_data: Vec::new() }
    }

    /// Add a piece of the body; the body may not grow past the announced size.
    pub fn push_data(&mut self, input: &[u8]) -> (r: Result<(), BlobError>)
        ensures
            final(self).spec_digest() == old(self).spec_digest(),
            final(self).spec_size() == old(self).spec_size(),
            final(self).spec_encoded_size() == old(self).spec_encoded_size(),
            old(self).spec_received().len() + input@.len() <= old(self).spec_encoded_size() ==> r is Ok
                && final(self).spec_received() == old(self).spec_received() + input@,
            old(self).spec_received().len() + input@.len() > old(self).spec_encoded_size() ==> r
                == Err::<(), BlobError>(BlobError::LargerThanAnnounced) && final(self).spec_received()
                == old(self).spec_received(),
    {
        if input.len() > self.encoded_size as usize || self.raw_data.len() > self.encoded_size as usize
            - input.len() {
            return Err(BlobError::LargerThanAnnounced);
        }
        append_bytes(&mut self.raw_data, input);
        Ok(())
    }

    /// The complete body, which must have the announced size.
    pub fn finish(&self) -> (r: Result<Vec<u8>, BlobError>)
        ensures
            self.spec_received().len() == self.spec_encoded_size() ==> r is Ok && r->Ok_0@
                == self.spec_received(),
            self.spec_received().len() != self.spec_encoded_size() ==> r == Err::<Vec<u8>, BlobError>(
                BlobError::UnexpectedSize,
            ),
    {
        if self.raw_data.len() != self.encoded_size as usize {
            return Err(BlobError::UnexpectedSize);
        }
        let r = copy_range(self.raw_data.as_slice(), 0, self.raw_data.len());
        assert(self.raw_data@.subrange(0, self.raw_data@.len() as int) =~= self.raw_data@);
        Ok(r)
    }

    /// Accept the decoded plaintext of the uploaded chunk: it must have the
    /// announced size and hash to the announced digest, so that a chunk
    /// stored under a digest always holds data with that SHA-256.
    pub fn accept_plaintext(&self, plain: &[u8]) -> (r: Result<(), BlobError>)
        ensures
            r is Ok <==> (plain@.len() == self.spec_size() && sha256_of(plain@) == self.spec_digest()),
    {
        let r = verify_unencrypted(plain, self.size as usize, &self.digest);
        proof {
            if sha256_of(plain@)@ == self.digest@ {
                assert(sha256_of(plain@) =~= self.digest);
            }
        }
        r
    }
}

} // verus!
