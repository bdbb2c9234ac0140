//! Catalog files: a compact listing of the directory tree of an archive.
//!
//! A catalog starts with an 8-byte magic. Directory blocks follow, each
//! written after the blocks of its subdirectories, and the file ends with
//! the little-endian offset of the root directory block.

use vstd::prelude::*;

use crate::bytes::{append_bytes, le_bytes_spec, push_le_u64};

verus! {

/// Error raised while reading or writing catalog data.
#[derive(Debug, Clone, Copy, PartialEq, Eq, Structural)]
pub enum CatalogError {
    /// A value of 2^63 or more cannot be encoded.
    ValueTooLarge,
    /// The data ended in the middle of a value.
    UnexpectedEnd,
    /// A variable-length integer had no end marker within nine bytes.
    MissingEndMarker,
    /// A byte that names no entry type.
    InvalidEntryType,
    /// An entry name of 4096 bytes or more.
    NameTooLong,
    /// A directory offset that does not point before its parent block.
    BadDirectoryOffset,
    /// Bytes left over after the last entry of a directory block.
    TrailingData,
    /// A directory block of size zero.
    SmallDirectory,
    /// The file does not start with the catalog magic.
    BadMagic,
    /// An entry other than a directory was used as a directory.
    NotADirectory,
    /// Directories were opened and not closed, or closed once too often.
    Unbalanced,
}

/// File magic of catalog files, version 1.0.
pub const PROXMOX_CATALOG_FILE_MAGIC_1_0: [u8; 8] = [145, 253, 96, 249, 196, 103, 88, 213];

/// Longest entry name a reader accepts, exclusive.
pub const MAX_NAME_LEN: usize = 4096;

pub open spec fn catalog_magic() -> Seq<u8> {
    seq![145u8, 253u8, 96u8, 249u8, 196u8, 103u8, 88u8, 213u8]
}

/// The type of a catalog entry, stored as one ASCII letter.
#[derive(Debug, Clone, Copy, PartialEq, Eq, Structural)]
pub enum CatalogEntryType {
    Directory,
    File,
    Symlink,
    Hardlink,
    BlockDevice,
    CharDevice,
    Fifo,
    Socket,
}

pub open spec fn entry_type_byte(t: CatalogEntryType) -> u8 {
    match t {
        CatalogEntryType::Directory => 100u8,
        CatalogEntryType::File => 102u8,
        CatalogEntryType::Symlink => 108u8,
        CatalogEntryType::Hardlink => 104u8,
        CatalogEntryType::BlockDevice => 98u8,
        CatalogEntryType::CharDevice => 99u8,
        CatalogEntryType::Fifo => 112u8,
        CatalogEntryType::Socket => 115u8,
    }
}

pub open spec fn entry_type_of_byte(b: u8) -> Option<CatalogEntryType> {
    if b == 100 {
        Some(CatalogEntryType::Directory)
    } else if b == 102 {
        Some(CatalogEntryType::File)
    } else if b == 108 {
        Some(CatalogEntryType::Symlink)
    } else if b == 104 {
        Some(CatalogEntryType::Hardlink)
    } else if b == 98 {
        Some(CatalogEntryType::BlockDevice)
    } else if b == 99 {
        Some(CatalogEntryType::CharDevice)
    } else if b == 112 {
        Some(CatalogEntryType::Fifo)
    } else if b == 115 {
        Some(CatalogEntryType::Socket)
    } else {
        None
    }
}

impl CatalogEntryType {
    /// The letter that stands for this type in catalog files
    /// (`d`, `f`, `l`, `h`, `b`, `c`, `p` or `s`).
    pub fn as_u8(self) -> (r: u8)
        ensures
            r == entry_type_byte(self),
    {
        match self {
            CatalogEntryType::Directory => 100,
            CatalogEntryType::File => 102,
            CatalogEntryType::Symlink => 108,
            CatalogEntryType::Hardlink => 104,
            CatalogEntryType::BlockDevice => 98,
            CatalogEntryType::CharDevice => 99,
            CatalogEntryType::Fifo => 112,
            CatalogEntryType::Socket => 115,
        }
    }

    /// The type that a letter stands for.
    pub fn from_u8(value: u8) -> (r: Result<CatalogEntryType, CatalogError>)
        ensures
            match entry_type_of_byte(value) {
                Some(t) => r == Ok::<CatalogEntryType, CatalogError>(t),
                None => r == Err::<CatalogEntryType, CatalogError>(
                    CatalogError::InvalidEntryType,
                ),
            },
    {
        match value {
            100 => Ok(CatalogEntryType::Directory),
            102 => Ok(CatalogEntryType::File),
            108 => Ok(CatalogEntryType::Symlink),
            104 => Ok(CatalogEntryType::Hardlink),
            98 => Ok(CatalogEntryType::BlockDevice),
            99 => Ok(CatalogEntryType::CharDevice),
            112 => Ok(CatalogEntryType::Fifo),
            115 => Ok(CatalogEntryType::Socket),
            _ => Err(CatalogError::InvalidEntryType),
        }
    }

    /// The type of an entry with the given attributes.
    pub fn from_attr(value: &DirEntryAttribute) -> (r: CatalogEntryType)
        ensures
            r == attr_entry_type(*value),
    {
        match value {
            DirEntryAttribute::Directory { .. } => CatalogEntryType::Directory,
            DirEntryAttribute::File { .. } => CatalogEntryType::File,
            DirEntryAttribute::Symlink => CatalogEntryType::Symlink,
            DirEntryAttribute::Hardlink => CatalogEntryType::Hardlink,
            DirEntryAttribute::BlockDevice => CatalogEntryType::BlockDevice,
            DirEntryAttribute::CharDevice => CatalogEntryType::CharDevice,
            DirEntryAttribute::Fifo => CatalogEntryType::Fifo,
            DirEntryAttribute::Socket => CatalogEntryType::Socket,
        }
    }
}

/// Additional attributes of a directory entry, by type.
#[derive(Debug, Clone, Copy, PartialEq, Eq, Structural)]
pub enum DirEntryAttribute {
    /// `start` is the offset of the directory's block in the catalog.
    Directory { start: u64 },
    File { size: u64, mtime: u64 },
    Symlink,
    Hardlink,
    BlockDevice,
    CharDevice,
    Fifo,
    Socket,
}

pub open spec fn attr_entry_type(a: DirEntryAttribute) -> CatalogEntryType {
    match a {
        DirEntryAttribute::Directory { .. } => CatalogEntryType::Directory,
        DirEntryAttribute::File { .. } => CatalogEntryType::File,
        DirEntryAttribute::Symlink => CatalogEntryType::Symlink,
        DirEntryAttribute::Hardlink => CatalogEntryType::Hardlink,
        DirEntryAttribute::BlockDevice => CatalogEntryType::BlockDevice,
        DirEntryAttribute::CharDevice => CatalogEntryType::CharDevice,
        DirEntryAttribute::Fifo => CatalogEntryType::Fifo,
        DirEntryAttribute::Socket => CatalogEntryType::Socket,
    }
}

/// The attributes that an entry of type `t` gets from the values read.
pub open spec fn attr_of(t: CatalogEntryType, start: u64, size: u64, mtime: u64) -> DirEntryAttribute {
    match t {
        CatalogEntryType::Directory => DirEntryAttribute::Directory { start },
        CatalogEntryType::File => DirEntryAttribute::File { size, mtime },
        CatalogEntryType::Symlink => DirEntryAttribute::Symlink,
        CatalogEntryType::Hardlink => DirEntryAttribute::Hardlink,
        CatalogEntryType::BlockDevice => DirEntryAttribute::BlockDevice,
        CatalogEntryType::CharDevice => DirEntryAttribute::CharDevice,
        CatalogEntryType::Fifo => DirEntryAttribute::Fifo,
        CatalogEntryType::Socket => DirEntryAttribute::Socket,
    }
}

/// A named directory entry; `attr` holds the type and its attributes.
#[derive(Debug, Clone, PartialEq, Eq)]
pub struct DirEntry {
    pub name: Vec<u8>,
    pub attr: DirEntryAttribute,
}

impl View for DirEntry {
    type V = (Seq<u8>, DirEntryAttribute);

    open spec fn view(&self) -> (Seq<u8>, DirEntryAttribute) {
        (self.name@, self.attr)
    }
}

pub open spec fn entries_view(v: Seq<DirEntry>) -> Seq<(Seq<u8>, DirEntryAttribute)> {
    v.map_values(|e: DirEntry| e@)
}

impl DirEntry {
    fn new(etype: CatalogEntryType, name: Vec<u8>, start: u64, size: u64, mtime: u64) -> (r: Self)
        ensures
            r@ == (name@, attr_of(etype, start, size, mtime)),
    {
        let attr = match etype {
            CatalogEntryType::Directory => DirEntryAttribute::Directory { start },
            CatalogEntryType::File => DirEntryAttribute::File { size, mtime },
            CatalogEntryType::Symlink => DirEntryAttribute::Symlink,
            CatalogEntryType::Hardlink => DirEntryAttribute::Hardlink,
            CatalogEntryType::BlockDevice => DirEntryAttribute::BlockDevice,
            CatalogEntryType::CharDevice => DirEntryAttribute::CharDevice,
            CatalogEntryType::Fifo => DirEntryAttribute::Fifo,
            CatalogEntryType::Socket => DirEntryAttribute::Socket,
        };
        DirEntry { name, attr }
    }

    /// Check if the entry is a directory.
    pub fn is_directory(&self) -> (r: bool)
        ensures
            r <==> self.attr is Directory,
    {
        match self.attr {
            DirEntryAttribute::Directory { .. } => true,
            _ => false,
        }
    }

    /// Check if the entry is a symlink.
    pub fn is_symlink(&self) -> (r: bool)
        ensures
            r <==> self.attr is Symlink,
    {
        match self.attr {
            DirEntryAttribute::Symlink => true,
            _ => false,
        }
    }
}


/// Powers of 128, the weight of the n-th 7-bit group.
pub open spec fn pow128(n: nat) -> nat
    decreases n,
{
    if n == 0 {
        1
    } else {
        128 * pow128((n - 1) as nat)
    }
}

/// The variable-length encoding of `v`: seven bits per byte, least
/// significant group first, the high bit set on every byte but the last.
pub open spec fn encode_u64_spec(v: nat) -> Seq<u8>
    decreases v,
{
    if v < 128 {
        seq![v as u8]
    } else {
        seq![(128 + v % 128) as u8] + encode_u64_spec(v / 128)
    }
}

/// Decoding from byte `i` on, where `i` groups have been read already:
/// the value contributed by the rest and the position after the last byte.
pub open spec fn decode_u64_from(b: Seq<u8>, i: nat) -> Option<(nat, nat)>
    decreases 9 - i,
{
    if i >= 9 || i >= b.len() {
        None
    } else if b[i as int] < 128 {
        Some(((b[i as int] as nat) * pow128(i), i + 1))
    } else {
        match decode_u64_from(b, i + 1) {
            Some((v, n)) => Some((((b[i as int] - 128) as nat) * pow128(i) + v, n)),
            None => None,
        }
    }
}

/// Why decoding fails, where it does.
pub open spec fn decode_u64_error(b: Seq<u8>, i: nat) -> CatalogError
    decreases 9 - i,
{
    if i >= 9 {
        CatalogError::MissingEndMarker
    } else if i >= b.len() {
        CatalogError::UnexpectedEnd
    } else {
        decode_u64_error(b, i + 1)
    }
}

proof fn lemma_pow128_pos(n: nat)
    ensures
        pow128(n) >= 1,
    decreases n,
{
    if n > 0 {
        lemma_pow128_pos((n - 1) as nat);
    }
}

proof fn lemma_pow128_63()
    ensures
        pow128(9) == 0x8000_0000_0000_0000,
{
    reveal_with_fuel(pow128, 10);
}

/// Serialize `v` as a short variable-length byte sequence and append it.
pub fn catalog_encode_u64(writer: &mut Vec<u8>, v: u64) -> (r: Result<(), CatalogError>)
    ensures
        v >= 0x8000_0000_0000_0000 ==> r == Err::<(), CatalogError>(CatalogError::ValueTooLarge)
            && final(writer)@ == old(writer)@,
        v < 0x8000_0000_0000_0000 ==> r is Ok && final(writer)@ == old(writer)@ + encode_u64_spec(
            v as nat,
        ),
{
    if v >= 0x8000_0000_0000_0000 {
        return Err(CatalogError::ValueTooLarge);
    }
    let ghost start = writer@;
    let mut d: u64 = v;
    loop
        invariant_except_break
            writer@ + encode_u64_spec(d as nat) == start + encode_u64_spec(v as nat),
        ensures
            writer@ == start + encode_u64_spec(v as nat),
        decreases d,
    {
        let ghost w = writer@;
        if d < 128 {
            writer.push(d as u8);
            assert(writer@ =~= w + encode_u64_spec(d as nat));
            break ;
        }
        writer.push((128 + d % 128) as u8);
        assert(writer@ + encode_u64_spec((d / 128) as nat) =~= w + encode_u64_spec(d as nat));
        d = d / 128;
    }
    Ok(())
}

/// The encoding of `v`, where `v` can be encoded.
pub open spec fn encode_value(v: int) -> Option<Seq<u8>> {
    if 0 <= v < 0x8000_0000_0000_0000 {
        Some(encode_u64_spec(v as nat))
    } else {
        None
    }
}

/// The bytes of one entry inside the block of a directory that starts at `pos`.
pub open spec fn encode_entry_spec(e: (Seq<u8>, DirEntryAttribute), pos: int) -> Option<Seq<u8>> {
    match encode_value(e.0.len() as int) {
        None => None,
        Some(nl) => {
            let base = seq![entry_type_byte(attr_entry_type(e.1))] + nl + e.0;
            match e.1 {
                DirEntryAttribute::Directory { start } => match encode_value(pos - start) {
                    Some(x) => Some(base + x),
                    None => None,
                },
                DirEntryAttribute::File { size, mtime } => match (
                    encode_value(size as int),
                    encode_value(mtime as int),
                ) {
                    (Some(a), Some(b)) => Some(base + a + b),
                    _ => None,
                },
                _ => Some(base),
            }
        },
    }
}

/// The bytes of a sequence of entries.
pub open spec fn encode_entries_spec(es: Seq<(Seq<u8>, DirEntryAttribute)>, pos: int) -> Option<
    Seq<u8>,
>
    decreases es.len(),
{
    if es.len() == 0 {
        Some(Seq::empty())
    } else {
        match (encode_entries_spec(es.drop_last(), pos), encode_entry_spec(es.last(), pos)) {
            (Some(a), Some(b)) => Some(a + b),
            _ => None,
        }
    }
}

/// A directory block written at `pos`: the table size, then the table,
/// which holds the entry count and the entries.
pub open spec fn dir_block_spec(es: Seq<(Seq<u8>, DirEntryAttribute)>, pos: int) -> Option<Seq<u8>> {
    match (encode_value(es.len() as int), encode_entries_spec(es, pos)) {
        (Some(c), Some(t)) => match encode_value((c + t).len() as int) {
            Some(l) => Some(l + c + t),
            None => None,
        },
        _ => None,
    }
}

fn encode_value_into(writer: &mut Vec<u8>, v: u64) -> (r: Result<(), CatalogError>)
    ensures
        match encode_value(v as int) {
            Some(b) => r is Ok && final(writer)@ == old(writer)@ + b,
            None => r is Err,
        },
{
    catalog_encode_u64(writer, v)
}

/// Append the encoding of `entry` for a directory block that starts at `pos`.
fn encode_entry(writer: &mut Vec<u8>, entry: &DirEntry, pos: u64) -> (r: Result<(), CatalogError>)
    ensures
        match encode_entry_spec(entry@, pos as int) {
            Some(b) => r is Ok && final(writer)@ == old(writer)@ + b,
            None => r is Err,
        },
{
    let ghost w0 = writer@;
    writer.push(CatalogEntryType::from_attr(&entry.attr).as_u8());
    let name_len = entry.name.len() as u64;
    encode_value_into(writer, name_len)?;
    append_bytes(writer, entry.name.as_slice());
    let ghost base = writer@;
    assert(base =~= w0 + (seq![entry_type_byte(attr_entry_type(entry.attr))] + encode_u64_spec(
        name_len as nat,
    ) + entry.name@));
    match entry.attr {
        DirEntryAttribute::Directory { start } => {
            if start > pos {
                return Err(CatalogError::BadDirectoryOffset);
            }
            encode_value_into(writer, pos - start)?;
        },
        DirEntryAttribute::File { size, mtime } => {
            encode_value_into(writer, size)?;
            encode_value_into(writer, mtime)?;
        },
        _ => {},
    }
    proof {
        match encode_entry_spec(entry@, pos as int) {
            Some(b) => {
                assert(writer@ =~= w0 + b);
            },
            None => {},
        }
    }
    Ok(())
}

/// A directory being written: its name and the entries collected so far.
pub struct DirInfo {
    pub name: Vec<u8>,
    pub entries: Vec<DirEntry>,
}

impl DirInfo {
    pub open spec fn entries_model(&self) -> Seq<(Seq<u8>, DirEntryAttribute)> {
        entries_view(self.entries@)
    }

    fn new(name: Vec<u8>) -> (r: Self)
        ensures
            r.name@ == name@,
            r.entries@.len() == 0,
    {
        DirInfo { name, entries: Vec::new() }
    }

    fn new_rootdir() -> (r: Self)
        ensures
            r.name@ == seq![47u8],
            r.entries@.len() == 0,
    {
        let mut name: Vec<u8> = Vec::new();
        name.push(47);
        DirInfo::new(name)
    }

    /// The block of this directory when written at `start`.
    fn encode(&self, start: u64) -> (r: Result<Vec<u8>, CatalogError>)
        ensures
            match dir_block_spec(self.entries_model(), start as int) {
                Some(b) => r is Ok && r->Ok_0@ == b,
                None => r is Err,
            },
    {
        let mut table: Vec<u8> = Vec::new();
        encode_value_into(&mut table, self.entries.len() as u64)?;
        let ghost count = table@;
        let mut i: usize = 0;
        while i < self.entries.len()
            invariant
                0 <= i <= self.entries@.len(),
                encode_entries_spec(self.entries_model().subrange(0, i as int), start as int)
                    == Some(table@.subrange(count.len() as int, table@.len() as int)),
                count.len() <= table@.len(),
                table@.subrange(0, count.len() as int) == count,
            decreases self.entries@.len() - i,
        {
            let ghost before = table@;
            let r = encode_entry(&mut table, &self.entries[i], start);
            proof {
                let es = self.entries_model().subrange(0, i + 1);
                assert(es.drop_last() =~= self.entries_model().subrange(0, i as int));
                assert(es.last() == self.entries@[i as int]@);
                if r is Err {
                    assert(encode_entries_spec(self.entries_model(), start as int) is None) by {
                        lemma_encode_entries_prefix_none(self.entries_model(), i as int + 1,
                            start as int);
                    }
                }
            }
            r?;
            proof {
                assert(table@.subrange(count.len() as int, table@.len() as int) =~= before.subrange(
                    count.len() as int,
                    before.len() as int,
                ) + table@.subrange(before.len() as int, table@.len() as int));
                assert(table@.subrange(0, count.len() as int) =~= before.subrange(0, count.len() as int));
            }
            i = i + 1;
        }
        assert(self.entries_model().subrange(0, i as int) =~= self.entries_model());
        assert(table@ =~= count + table@.subrange(count.len() as int, table@.len() as int));
        let mut data: Vec<u8> = Vec::new();
        encode_value_into(&mut data, table.len() as u64)?;
        append_bytes(&mut data, table.as_slice());
        Ok(data)
    }
}

/// A directory on the writer's stack: its name and entries.
pub type DirModel = (Seq<u8>, Seq<(Seq<u8>, DirEntryAttribute)>);

/// Writes catalog files into memory.
///
/// Directory blocks are written when the directory ends; the entries of
/// open directories are kept on a stack, the root at the bottom.
pub struct CatalogWriter {
    writer: Vec<u8>,
    dirstack: Vec<DirInfo>,
}

impl CatalogWriter {
    /// The bytes written so far.
    pub closed spec fn data(&self) -> Seq<u8> {
        self.writer@
    }

    /// The open directories, the root first.
    pub closed spec fn stack(&self) -> Seq<DirModel> {
        self.dirstack@.map_values(|d: DirInfo| (d.name@, d.entries_model()))
    }

    /// Start a catalog with the file magic and an open root directory.
    pub fn new() -> (r: Result<Self, CatalogError>)
        ensures
            r is Ok,
            r->Ok_0.data() == catalog_magic(),
            r->Ok_0.stack() == seq![(seq![47u8], Seq::<(Seq<u8>, DirEntryAttribute)>::empty())],
    {
        let mut writer: Vec<u8> = Vec::new();
        append_bytes(&mut writer, &PROXMOX_CATALOG_FILE_MAGIC_1_0);
        let mut dirstack: Vec<DirInfo> = Vec::new();
        dirstack.push(DirInfo::new_rootdir());
        let me = CatalogWriter { writer, dirstack };
        proof {
            assert(me.data() =~= catalog_magic());
            assert(me.dirstack@[0].entries_model() =~= Seq::<(Seq<u8>, DirEntryAttribute)>::empty());
            assert(me.stack() =~= seq![(seq![47u8], Seq::<(Seq<u8>, DirEntryAttribute)>::empty())]);
        }
        Ok(me)
    }

    /// The bytes written, once the catalog is finished.
    pub fn into_inner(self) -> (r: Vec<u8>)
        ensures
            r@ == self.data(),
    {
        self.writer
    }

    /// Open a subdirectory of the current directory.
    pub fn start_directory(&mut self, name: &[u8]) -> (r: Result<(), CatalogError>)
        ensures
            r is Ok,
            final(self).data() == old(self).data(),
            final(self).stack() == old(self).stack().push(
                (name@, Seq::<(Seq<u8>, DirEntryAttribute)>::empty()),
            ),
    {
        let mut n: Vec<u8> = Vec::new();
        append_bytes(&mut n, name);
        let d = DirInfo::new(n);
        self.dirstack.push(d);
        proof {
            assert(d.entries_model() =~= Seq::<(Seq<u8>, DirEntryAttribute)>::empty());
            assert(final(self).stack() =~= old(self).stack().push(
                (name@, Seq::<(Seq<u8>, DirEntryAttribute)>::empty()),
            ));
        }
        Ok(())
    }

    fn add_entry(&mut self, name: &[u8], attr: DirEntryAttribute) -> (r: Result<(), CatalogError>)
        ensures
            old(self).stack().len() == 0 ==> r == Err::<(), CatalogError>(CatalogError::Unbalanced)
                && final(self).stack() == old(self).stack(),
            old(self).stack().len() > 0 ==> r is Ok && final(self).stack() == old(
                self,
            ).stack().drop_last().push(
                (
                    old(self).stack().last().0,
                    old(self).stack().last().1.push((name@, attr)),
                ),
            ),
            final(self).data() == old(self).data(),
    {
        match self.dirstack.pop() {
            None => Err(CatalogError::Unbalanced),
            Some(mut dir) => {
                let mut n: Vec<u8> = Vec::new();
                append_bytes(&mut n, name);
                let ghost before = dir.entries@;
                dir.entries.push(DirEntry { name: n, attr });
                proof {
                    assert(entries_view(dir.entries@) =~= entries_view(before).push((name@, attr)));
                }
                self.dirstack.push(dir);
                proof {
                    assert(final(self).stack() =~= old(self).stack().drop_last().push(
                        (
                            old(self).stack().last().0,
                            old(self).stack().last().1.push((name@, attr)),
                        ),
                    ));
                }
                Ok(())
            },
        }
    }

    /// Add a regular file to the current directory.
    pub fn add_file(&mut self, name: &[u8], size: u64, mtime: u64) -> (r: Result<(), CatalogError>)
        ensures
            added(*old(self), *final(self), r, name@, DirEntryAttribute::File { size, mtime }),
    {
        self.add_entry(name, DirEntryAttribute::File { size, mtime })
    }

    /// Add a symbolic link to the current directory.
    pub fn add_symlink(&mut self, name: &[u8]) -> (r: Result<(), CatalogError>)
        ensures
            added(*old(self), *final(self), r, name@, DirEntryAttribute::Symlink),
    {
        self.add_entry(name, DirEntryAttribute::Symlink)
    }

    /// Add a hard link to the current directory.
    pub fn add_hardlink(&mut self, name: &[u8]) -> (r: Result<(), CatalogError>)
        ensures
            added(*old(self), *final(self), r, name@, DirEntryAttribute::Hardlink),
    {
        self.add_entry(name, DirEntryAttribute::Hardlink)
    }

    /// Add a block device to the current directory.
    pub fn add_block_device(&mut self, name: &[u8]) -> (r: Result<(), CatalogError>)
        ensures
            added(*old(self), *final(self), r, name@, DirEntryAttribute::BlockDevice),
    {
        self.add_entry(name, DirEntryAttribute::BlockDevice)
    }

    /// Add a character device to the current directory.
    pub fn add_char_device(&mut self, name: &[u8]) -> (r: Result<(), CatalogError>)
        ensures
            added(*old(self), *final(self), r, name@, DirEntryAttribute::CharDevice),
    {
        self.add_entry(name, DirEntryAttribute::CharDevice)
    }

    /// Add a named pipe to the current directory.
    pub fn add_fifo(&mut self, name: &[u8]) -> (r: Result<(), CatalogError>)
        ensures
            added(*old(self), *final(self), r, name@, DirEntryAttribute::Fifo),
    {
        self.add_entry(name, DirEntryAttribute::Fifo)
    }

    /// Add a socket to the current directory.
    pub fn add_socket(&mut self, name: &[u8]) -> (r: Result<(), CatalogError>)
        ensures
            added(*old(self), *final(self), r, name@, DirEntryAttribute::Socket),
    {
        self.add_entry(name, DirEntryAttribute::Socket)
    }

    /// Close the current directory: write its block and enter it into its parent.
    pub fn end_directory(&mut self) -> (r: Result<(), CatalogError>)
        ensures
            ({
                let st = old(self).stack();
                let pos = old(self).data().len() as int;
                if st.len() == 0 {
                    r == Err::<(), CatalogError>(CatalogError::Unbalanced) && final(self).stack() == st
                        && final(self).data() == old(self).data()
                } else {
                    match dir_block_spec(st.last().1, pos) {
                        None => r is Err && final(self).stack() == st.drop_last() && final(self).data()
                            == old(self).data(),
                        Some(b) => final(self).data() == old(self).data() + b && if st.len() == 1 {
                            r == Err::<(), CatalogError>(CatalogError::Unbalanced)
                                && final(self).stack().len() == 0
                        } else {
                            r is Ok && final(self).stack() == st.drop_last().drop_last().push(
                                (
                                    st[st.len() - 2].0,
                                    st[st.len() - 2].1.push(
                                        (
                                            st.last().0,
                                            DirEntryAttribute::Directory { start: pos as u64 },
                                        ),
                                    ),
                                ),
                            )
                        },
                    }
                }
            }),
    {
        let ghost st = self.stack();
        let dir = match self.dirstack.pop() {
            Some(dir) => dir,
            None => return Err(CatalogError::Unbalanced),
        };
        proof {
            assert(self.stack() =~= st.drop_last());
        }
        let start = self.writer.len() as u64;
        let data = dir.encode(start)?;
        append_bytes(&mut self.writer, data.as_slice());
        self.add_entry(dir.name.as_slice(), DirEntryAttribute::Directory { start })
    }

    /// Write the root directory block and the offset of that block.
    /// All subdirectories must have been closed.
    pub fn finish(&mut self) -> (r: Result<(), CatalogError>)
        ensures
            ({
                let st = old(self).stack();
                let pos = old(self).data().len() as int;
                if st.len() != 1 {
                    r == Err::<(), CatalogError>(CatalogError::Unbalanced) && final(self).stack() == st
                        && final(self).data() == old(self).data()
                } else {
                    final(self).stack().len() == 0 && match dir_block_spec(st[0].1, pos) {
                        None => r is Err && final(self).data() == old(self).data(),
                        Some(b) => r is Ok && final(self).data() == old(self).data() + b
                            + le_bytes_spec(pos as u64),
                    }
                }
            }),
    {
        if self.dirstack.len() != 1 {
            return Err(CatalogError::Unbalanced);
        }
        let ghost st = self.stack();
        let dir = self.dirstack.pop().unwrap();
        proof {
            assert(self.stack() =~= st.drop_last());
        }
        let start = self.writer.len() as u64;
        let data = dir.encode(start)?;
        append_bytes(&mut self.writer, data.as_slice());
        push_le_u64(&mut self.writer, start);
        Ok(())
    }
}

/// What adding one entry does: the entry goes to the current directory,
/// and without an open directory the call fails and changes nothing.
pub open spec fn added(
    old_w: CatalogWriter,
    new_w: CatalogWriter,
    r: Result<(), CatalogError>,
    name: Seq<u8>,
    attr: DirEntryAttribute,
) -> bool {
    &&& new_w.data() == old_w.data()
    &&& if old_w.stack().len() == 0 {
        r == Err::<(), CatalogError>(CatalogError::Unbalanced) && new_w.stack() == old_w.stack()
    } else {
        r is Ok && new_w.stack() == old_w.stack().drop_last().push(
            (old_w.stack().last().0, old_w.stack().last().1.push((name, attr))),
        )
    }
}

/// A value decoded at `pos` of `b`, with the position after it.
pub open spec fn dec_at(b: Seq<u8>, pos: int) -> Option<(nat, int)> {
    if 0 <= pos <= b.len() {
        match decode_u64_from(b.subrange(pos, b.len() as int), 0) {
            Some((v, n)) => Some((v, pos + n)),
            None => None,
        }
    } else {
        None
    }
}

/// The entry at `pos` of the block of a directory that starts at `start`,
/// with the position after it.
pub open spec fn entry_at(b: Seq<u8>, pos: int, start: int) -> Option<
    ((Seq<u8>, DirEntryAttribute), int),
> {
    if pos < 0 || pos >= b.len() {
        None
    } else {
        match entry_type_of_byte(b[pos]) {
            None => None,
            Some(t) => match dec_at(b, pos + 1) {
                None => None,
                Some((nl, p2)) => if nl >= 4096 || p2 + nl > b.len() {
                    None
                } else {
                    let name = b.subrange(p2, p2 + nl);
                    let p3 = p2 + nl;
                    match t {
                        CatalogEntryType::Directory => match dec_at(b, p3) {
                            Some((off, p4)) => if off > start {
                                None
                            } else {
                                Some(((name, DirEntryAttribute::Directory { start: (start - off) as u64 }), p4))
                            },
                            None => None,
                        },
                        CatalogEntryType::File => match dec_at(b, p3) {
                            Some((size, p4)) => match dec_at(b, p4) {
                                Some((mtime, p5)) => Some(
                                    ((name, DirEntryAttribute::File { size: size as u64, mtime: mtime as u64 }), p5),
                                ),
                                None => None,
                            },
                            None => None,
                        },
                        _ => Some(((name, attr_of(t, 0, 0, 0)), p3)),
                    }
                },
            },
        }
    }
}

/// `n` entries parsed from `pos` on; the block must end right after them.
pub open spec fn parse_entries(b: Seq<u8>, pos: int, n: nat, start: int) -> Option<
    Seq<(Seq<u8>, DirEntryAttribute)>,
>
    decreases n,
{
    if n == 0 {
        if pos == b.len() {
            Some(Seq::empty())
        } else {
            None
        }
    } else {
        match entry_at(b, pos, start) {
            None => None,
            Some((e, next)) => match parse_entries(b, next, (n - 1) as nat, start) {
                Some(rest) => Some(seq![e] + rest),
                None => None,
            },
        }
    }
}

/// The first entry named `name` among `n` entries from `pos` on: `Some(None)`
/// where no entry has that name, `None` where the block is malformed before
/// such an entry.
pub open spec fn lookup_entries(b: Seq<u8>, pos: int, n: nat, start: int, name: Seq<u8>) -> Option<
    Option<(Seq<u8>, DirEntryAttribute)>,
>
    decreases n,
{
    if n == 0 {
        if pos == b.len() {
            Some(None)
        } else {
            None
        }
    } else {
        match entry_at(b, pos, start) {
            None => None,
            Some((e, next)) => if e.0 == name {
                Some(Some(e))
            } else {
                lookup_entries(b, next, (n - 1) as nat, start, name)
            },
        }
    }
}

/// The raw block of the directory at `start` of a catalog file.
pub open spec fn block_spec(data: Seq<u8>, start: int) -> Option<Seq<u8>> {
    match dec_at(data, start) {
        Some((size, p1)) => if size < 1 || p1 + size > data.len() {
            None
        } else {
            Some(data.subrange(p1, p1 + size))
        },
        None => None,
    }
}

/// The entries of the directory at `start` of a catalog file.
pub open spec fn read_dir_spec(data: Seq<u8>, start: int) -> Option<Seq<(Seq<u8>, DirEntryAttribute)>> {
    match block_spec(data, start) {
        Some(blk) => match dec_at(blk, 0) {
            Some((n, p)) => parse_entries(blk, p, n, start),
            None => None,
        },
        None => None,
    }
}

/// The first entry named `name` in the directory at `start` of a catalog file.
pub open spec fn lookup_spec(data: Seq<u8>, start: int, name: Seq<u8>) -> Option<
    Option<(Seq<u8>, DirEntryAttribute)>,
> {
    match block_spec(data, start) {
        Some(blk) => match dec_at(blk, 0) {
            Some((n, p)) => lookup_entries(blk, p, n, start, name),
            None => None,
        },
        None => None,
    }
}

/// The offset of the root directory block, where the file has the magic.
pub open spec fn root_spec(data: Seq<u8>) -> Option<u64> {
    if data.len() >= 8 && data.subrange(0, 8) == catalog_magic() {
        Some(crate::bytes::le_u64_spec(data.subrange(data.len() - 8, data.len() as int)) as u64)
    } else {
        None
    }
}

fn decode_at(b: &[u8], pos: usize) -> (r: Result<(u64, usize), CatalogError>)
    ensures
        match dec_at(b@, pos as int) {
            Some((v, next)) => r is Ok && r->Ok_0.0 == v && r->Ok_0.1 == next,
            None => r is Err,
        },
{
    if pos > b.len() {
        return Err(CatalogError::UnexpectedEnd);
    }
    let mut cursor: &[u8] = &b[pos..b.len()];
    let ghost c0 = cursor@;
    assert(c0 =~= b@.subrange(pos as int, b@.len() as int));
    let v = catalog_decode_u64(&mut cursor)?;
    proof {
        match decode_u64_from(c0, 0) {
            Some((x, n)) => {
                lemma_decode_bound(c0, 0);
                lemma_pow128_63();
                assert(cursor@.len() == c0.len() - n);
            },
            None => {},
        }
    }
    Ok((v, b.len() - cursor.len()))
}

fn parse_entry(b: &[u8], pos: usize, start: u64) -> (r: Result<(DirEntry, usize), CatalogError>)
    ensures
        match entry_at(b@, pos as int, start as int) {
            Some((e, next)) => r is Ok && r->Ok_0.0@ == e && r->Ok_0.1 == next,
            None => r is Err,
        },
{
    if pos >= b.len() {
        return Err(CatalogError::UnexpectedEnd);
    }
    let etype = CatalogEntryType::from_u8(b[pos])?;
    let (name_len, p2) = decode_at(b, pos + 1)?;
    proof {
        lemma_dec_at_bound(b@, pos + 1);
    }
    if name_len >= MAX_NAME_LEN as u64 {
        return Err(CatalogError::NameTooLong);
    }
    let name_len = name_len as usize;
    if name_len > b.len() - p2 {
        return Err(CatalogError::UnexpectedEnd);
    }
    let name = crate::bytes::copy_range(b, p2, p2 + name_len);
    let p3 = p2 + name_len;
    match etype {
        CatalogEntryType::Directory => {
            let (offset, p4) = decode_at(b, p3)?;
            if offset > start {
                return Err(CatalogError::BadDirectoryOffset);
            }
            Ok((DirEntry::new(etype, name, start - offset, 0, 0), p4))
        },
        CatalogEntryType::File => {
            let (size, p4) = decode_at(b, p3)?;
            proof {
                lemma_dec_at_bound(b@, p3 as int);
            }
            let (mtime, p5) = decode_at(b, p4)?;
            Ok((DirEntry::new(etype, name, 0, size, mtime), p5))
        },
        _ => Ok((DirEntry::new(etype, name, 0, 0, 0), p3)),
    }
}

/// Parse all entries of a directory block; `start` is where the block
/// stands in the file.
fn parse_dir_block(b: &[u8], start: u64) -> (r: Result<Vec<DirEntry>, CatalogError>)
    ensures
        match dec_at(b@, 0) {
            Some((n, p)) => match parse_entries(b@, p, n, start as int) {
                Some(es) => r is Ok && entries_view(r->Ok_0@) == es,
                None => r is Err,
            },
            None => r is Err,
        },
{
    let (n, p) = decode_at(b, 0)?;
    proof {
        lemma_dec_at_bound(b@, 0);
    }
    let mut list: Vec<DirEntry> = Vec::new();
    let mut pos = p;
    let mut i: u64 = 0;
    while i < n
        invariant
            0 <= i <= n,
            pos <= b@.len(),
            dec_at(b@, 0) == Some((n as nat, p as int)),
            parse_entries(b@, p as int, n as nat, start as int) == match parse_entries(
                b@,
                pos as int,
                (n - i) as nat,
                start as int,
            ) {
                Some(rest) => Some(entries_view(list@) + rest),
                None => None,
            },
        decreases n - i,
    {
        let ghost before = list@;
        let (e, next) = parse_entry(b, pos, start)?;
        list.push(e);
        proof {
            assert(entries_view(list@) =~= entries_view(before).push(e@));
            match parse_entries(b@, next as int, (n - i - 1) as nat, start as int) {
                Some(rest) => {
                    assert(entries_view(before) + (seq![e@] + rest) =~= entries_view(list@) + rest);
                },
                None => {},
            }
            lemma_entry_at_bound(b@, pos as int, start as int);
        }
        pos = next;
        i = i + 1;
    }
    if pos != b.len() {
        return Err(CatalogError::TrailingData);
    }
    assert(entries_view(list@) + Seq::empty() =~= entries_view(list@));
    Ok(list)
}

/// Find the first entry named `name` in a directory block.
fn lookup_dir_block(b: &[u8], start: u64, name: &[u8]) -> (r: Result<Option<DirEntry>, CatalogError>)
    ensures
        match dec_at(b@, 0) {
            Some((n, p)) => match lookup_entries(b@, p, n, start as int, name@) {
                Some(Some(e)) => r is Ok && r->Ok_0 is Some && r->Ok_0->Some_0@ == e,
                Some(None) => r == Ok::<Option<DirEntry>, CatalogError>(None),
                None => r is Err,
            },
            None => r is Err,
        },
{
    let (n, p) = decode_at(b, 0)?;
    proof {
        lemma_dec_at_bound(b@, 0);
    }
    let mut pos = p;
    let mut i: u64 = 0;
    while i < n
        invariant
            0 <= i <= n,
            pos <= b@.len(),
            dec_at(b@, 0) == Some((n as nat, p as int)),
            lookup_entries(b@, p as int, n as nat, start as int, name@) == lookup_entries(
                b@,
                pos as int,
                (n - i) as nat,
                start as int,
                name@,
            ),
        decreases n - i,
    {
        let (e, next) = parse_entry(b, pos, start)?;
        if crate::bytes::range_equals(e.name.as_slice(), 0, name) && e.name.len() == name.len() {
            assert(e.name@ =~= name@) by {
                assert(e.name@.subrange(0, name@.len() as int) =~= e.name@);
            }
            return Ok(Some(e));
        }
        proof {
            if e.name@ == name@ {
                assert(e.name@.subrange(0, name@.len() as int) =~= e.name@);
            }
            lemma_entry_at_bound(b@, pos as int, start as int);
        }
        pos = next;
        i = i + 1;
    }
    if pos != b.len() {
        return Err(CatalogError::TrailingData);
    }
    Ok(None)
}

proof fn lemma_entry_at_bound(b: Seq<u8>, pos: int, start: int)
    requires
        entry_at(b, pos, start) is Some,
    ensures
        entry_at(b, pos, start)->Some_0.1 <= b.len(),
{
    lemma_dec_at_bound(b, pos + 1);
    let (nl, p2) = dec_at(b, pos + 1)->Some_0;
    let p3 = p2 + nl;
    if dec_at(b, p3) is Some {
        lemma_dec_at_bound(b, p3);
        let p4 = dec_at(b, p3)->Some_0.1;
        if dec_at(b, p4) is Some {
            lemma_dec_at_bound(b, p4);
        }
    }
}

/// One line of a catalog listing: the entry type, the path from the root,
/// and for files the size and modification time (zero otherwise).
#[derive(Debug, Clone, PartialEq, Eq)]
pub struct CatalogListItem {
    pub etype: CatalogEntryType,
    pub path: Vec<u8>,
    pub size: u64,
    pub mtime: u64,
}

pub type ListItemModel = (CatalogEntryType, Seq<u8>, u64, u64);

impl View for CatalogListItem {
    type V = ListItemModel;

    open spec fn view(&self) -> ListItemModel {
        (self.etype, self.path@, self.size, self.mtime)
    }
}

pub open spec fn items_view(v: Seq<CatalogListItem>) -> Seq<ListItemModel> {
    v.map_values(|i: CatalogListItem| i@)
}

/// The listing line of entry `e` under `prefix`.
pub open spec fn list_item(e: (Seq<u8>, DirEntryAttribute), prefix: Seq<u8>) -> ListItemModel {
    let path = prefix + seq![47u8] + e.0;
    match e.1 {
        DirEntryAttribute::File { size, mtime } => (CatalogEntryType::File, path, size, mtime),
        _ => (attr_entry_type(e.1), path, 0, 0),
    }
}

pub open spec fn dump_measure(data: Seq<u8>, start: int, k: int) -> int {
    match read_dir_spec(data, start) {
        Some(es) => es.len() - k,
        None => 0,
    }
}

/// The listing of entries `k..` of the directory at `start`, each directory
/// followed by its own listing. A subdirectory must start before its parent.
pub open spec fn dump_entries(data: Seq<u8>, start: int, prefix: Seq<u8>, k: int) -> Option<
    Seq<ListItemModel>,
>
    decreases start, dump_measure(data, start, k),
{
    match read_dir_spec(data, start) {
        None => None,
        Some(es) => if k < 0 || k >= es.len() {
            Some(Seq::empty())
        } else {
            let e = es[k];
            let path = prefix + seq![47u8] + e.0;
            let sub = match e.1 {
                DirEntryAttribute::Directory { start: c } => if 0 <= c < start {
                    dump_entries(data, c as int, path, 0)
                } else {
                    None
                },
                _ => Some(Seq::empty()),
            };
            match (sub, dump_entries(data, start, prefix, k + 1)) {
                (Some(a), Some(b)) => Some(seq![list_item(e, prefix)] + a + b),
                _ => None,
            }
        },
    }
}

/// The listing of a whole catalog, paths starting with `.`.
pub open spec fn dump_spec(data: Seq<u8>) -> Option<Seq<ListItemModel>> {
    match root_spec(data) {
        Some(start) => dump_entries(data, start as int, seq![46u8], 0),
        None => None,
    }
}

/// Reads catalog files held in memory.
pub struct CatalogReader {
    reader: Vec<u8>,
}

impl CatalogReader {
    /// The catalog file.
    pub closed spec fn data(&self) -> Seq<u8> {
        self.reader@
    }

    /// Create a reader over the bytes of a catalog file.
    pub fn new(reader: Vec<u8>) -> (r: Self)
        ensures
            r.data() == reader@,
    {
        CatalogReader { reader }
    }

    /// The root directory entry: a directory with an empty name whose block
    /// starts at the offset stored in the last eight bytes.
    pub fn root(&self) -> (r: Result<DirEntry, CatalogError>)
        ensures
            match root_spec(self.data()) {
                Some(start) => r is Ok && r->Ok_0@ == (
                    Seq::<u8>::empty(),
                    DirEntryAttribute::Directory { start },
                ),
                None => r == Err::<DirEntry, CatalogError>(CatalogError::BadMagic),
            },
    {
        let data = self.reader.as_slice();
        if data.len() < 8 || !crate::bytes::range_equals(data, 0, &PROXMOX_CATALOG_FILE_MAGIC_1_0) {
            proof {
                assert(PROXMOX_CATALOG_FILE_MAGIC_1_0@ =~= catalog_magic());
            }
            return Err(CatalogError::BadMagic);
        }
        proof {
            assert(PROXMOX_CATALOG_FILE_MAGIC_1_0@ =~= catalog_magic());
        }
        let start = crate::bytes::read_le_u64(data, data.len() - 8);
        Ok(DirEntry { name: Vec::new(), attr: DirEntryAttribute::Directory { start } })
    }

    /// The raw block of the directory whose block starts at `start`.
    fn read_raw_dirinfo_block(&self, start: u64) -> (r: Result<Vec<u8>, CatalogError>)
        ensures
            match block_spec(self.data(), start as int) {
                Some(b) => r is Ok && r->Ok_0@ == b,
                None => r is Err,
            },
    {
        let data = self.reader.as_slice();
        if start > data.len() as u64 {
            return Err(CatalogError::UnexpectedEnd);
        }
        let (size, p1) = decode_at(data, start as usize)?;
        proof {
            lemma_dec_at_bound(data@, start as int);
        }
        if size < 1 {
            return Err(CatalogError::SmallDirectory);
        }
        if size > (data.len() - p1) as u64 {
            return Err(CatalogError::UnexpectedEnd);
        }
        Ok(crate::bytes::copy_range(data, p1, p1 + size as usize))
    }

    fn read_dir_at(&self, start: u64) -> (r: Result<Vec<DirEntry>, CatalogError>)
        ensures
            match read_dir_spec(self.data(), start as int) {
                Some(es) => r is Ok && entries_view(r->Ok_0@) == es,
                None => r is Err,
            },
    {
        let data = self.read_raw_dirinfo_block(start)?;
        parse_dir_block(data.as_slice(), start)
    }

    /// Read all entries of directory `parent`.
    pub fn read_dir(&self, parent: &DirEntry) -> (r: Result<Vec<DirEntry>, CatalogError>)
        ensures
            match parent.attr {
                DirEntryAttribute::Directory { start } => match read_dir_spec(self.data(), start as int) {
                    Some(es) => r is Ok && entries_view(r->Ok_0@) == es,
                    None => r is Err,
                },
                _ => r == Err::<Vec<DirEntry>, CatalogError>(CatalogError::NotADirectory),
            },
    {
        let start = match parent.attr {
            DirEntryAttribute::Directory { start } => start,
            _ => return Err(CatalogError::NotADirectory),
        };
        self.read_dir_at(start)
    }

    /// Look up the entry named `filename` in directory `parent`.
    pub fn lookup(&self, parent: &DirEntry, filename: &[u8]) -> (r: Result<Option<DirEntry>, CatalogError>)
        ensures
            match parent.attr {
                DirEntryAttribute::Directory { start } => match lookup_spec(self.data(), start as int, filename@) {
                    Some(Some(e)) => r is Ok && r->Ok_0 is Some && r->Ok_0->Some_0@ == e,
                    Some(None) => r == Ok::<Option<DirEntry>, CatalogError>(None),
                    None => r is Err,
                },
                _ => r == Err::<Option<DirEntry>, CatalogError>(CatalogError::NotADirectory),
            },
    {
        let start = match parent.attr {
            DirEntryAttribute::Directory { start } => start,
            _ => return Err(CatalogError::NotADirectory),
        };
        let data = self.read_raw_dirinfo_block(start)?;
        lookup_dir_block(data.as_slice(), start, filename)
    }

    /// List the whole catalog, depth first, each directory before its content.
    pub fn dump(&self) -> (r: Result<Vec<CatalogListItem>, CatalogError>)
        ensures
            match dump_spec(self.data()) {
                Some(items) => r is Ok && items_view(r->Ok_0@) == items,
                None => r is Err,
            },
    {
        let root = self.root()?;
        let start = match root.attr {
            DirEntryAttribute::Directory { start } => start,
            _ => return Err(CatalogError::NotADirectory),
        };
        let mut out: Vec<CatalogListItem> = Vec::new();
        let mut prefix: Vec<u8> = Vec::new();
        prefix.push(46);
        self.dump_dir(prefix.as_slice(), start, &mut out)?;
        assert(items_view(out@) =~= Seq::<ListItemModel>::empty() + items_view(out@));
        Ok(out)
    }

    /// Append the listing of the directory at `start` to `out`.
    pub fn dump_dir(&self, prefix: &[u8], start: u64, out: &mut Vec<CatalogListItem>) -> (r: Result<
        (),
        CatalogError,
    >)
        ensures
            match dump_entries(self.data(), start as int, prefix@, 0) {
                Some(items) => r is Ok && items_view(final(out)@) == items_view(old(out)@) + items,
                None => r is Err,
            },
        decreases start,
    {
        let entries = self.read_dir_at(start)?;
        let ghost es = entries_view(entries@);
        let ghost mut acc: Seq<ListItemModel> = Seq::empty();
        let mut k: usize = 0;
        while k < entries.len()
            invariant
                0 <= k <= entries@.len(),
                read_dir_spec(self.data(), start as int) == Some(es),
                es == entries_view(entries@),
                items_view(out@) == items_view(old(out)@) + acc,
                dump_entries(self.data(), start as int, prefix@, 0) == match dump_entries(
                    self.data(),
                    start as int,
                    prefix@,
                    k as int,
                ) {
                    Some(rest) => Some(acc + rest),
                    None => None,
                },
            decreases entries@.len() - k,
        {
            let e = &entries[k];
            let mut path: Vec<u8> = Vec::new();
            append_bytes(&mut path, prefix);
            path.push(47);
            append_bytes(&mut path, e.name.as_slice());
            let item = match e.attr {
                DirEntryAttribute::File { size, mtime } => CatalogListItem {
                    etype: CatalogEntryType::File,
                    path: copy_vec(&path),
                    size,
                    mtime,
                },
                _ => CatalogListItem {
                    etype: CatalogEntryType::from_attr(&e.attr),
                    path: copy_vec(&path),
                    size: 0,
                    mtime: 0,
                },
            };
            let ghost o1 = out@;
            out.push(item);
            proof {
                assert(items_view(out@) =~= items_view(o1).push(item@));
                assert(es[k as int] == e@);
                assert(item@ == list_item(e@, prefix@));
            }
            let ghost o2 = out@;
            match e.attr {
                DirEntryAttribute::Directory { start: child } => {
                    if child >= start {
                        return Err(CatalogError::BadDirectoryOffset);
                    }
                    self.dump_dir(path.as_slice(), child, out)?;
                },
                _ => {},
            }
            proof {
                let sub = match e.attr {
                    DirEntryAttribute::Directory { start: c } => dump_entries(
                        self.data(),
                        c as int,
                        path@,
                        0,
                    )->Some_0,
                    _ => Seq::empty(),
                };
                assert(items_view(out@) =~= items_view(o2) + sub);
                let nacc = acc + (seq![item@] + sub);
                assert(items_view(out@) =~= items_view(old(out)@) + nacc);
                match dump_entries(self.data(), start as int, prefix@, k + 1) {
                    Some(rest) => {
                        assert(acc + (seq![item@] + sub + rest) =~= nacc + rest);
                    },
                    None => {},
                }
                acc = nacc;
            }
            k = k + 1;
        }
        assert(acc + Seq::<ListItemModel>::empty() =~= acc);
        Ok(())
    }
}

fn copy_vec(v: &Vec<u8>) -> (r: Vec<u8>)
    ensures
        r@ == v@,
{
    crate::bytes::copy_range(v.as_slice(), 0, v.len())
}

proof fn lemma_dec_at_encoded(p: Seq<u8>, v: nat, rest: Seq<u8>)
    requires
        v < 0x8000_0000_0000_0000,
    ensures
        dec_at(p + encode_u64_spec(v) + rest, p.len() as int) == Some(
            (v, (p.len() + encode_u64_spec(v).len()) as int),
        ),
{
    let b = p + encode_u64_spec(v) + rest;
    assert(b.subrange(p.len() as int, b.len() as int) =~= encode_u64_spec(v) + rest);
    lemma_catalog_u64_round_trip(v as u64, rest);
}

proof fn lemma_entry_type_round_trip(t: CatalogEntryType)
    ensures
        entry_type_of_byte(entry_type_byte(t)) == Some(t),
{
}

/// Whether an entry can be written and read back: a name shorter than
/// `MAX_NAME_LEN`, sizes and times below 2^63, and a subdirectory that
/// starts before the block at `pos`.
pub open spec fn entry_writable(e: (Seq<u8>, DirEntryAttribute), pos: int) -> bool {
    &&& e.0.len() < 4096
    &&& match e.1 {
        DirEntryAttribute::Directory { start } => start <= pos && pos < 0x8000_0000_0000_0000,
        DirEntryAttribute::File { size, mtime } => size < 0x8000_0000_0000_0000 && mtime < 0x8000_0000_0000_0000,
        _ => true,
    }
}

proof fn lemma_entry_read_back(p: Seq<u8>, e: (Seq<u8>, DirEntryAttribute), pos: int, rest: Seq<u8>)
    requires
        entry_writable(e, pos),
        0 <= pos,
    ensures
        encode_entry_spec(e, pos) is Some,
        entry_at(p + encode_entry_spec(e, pos)->Some_0 + rest, p.len() as int, pos) == Some(
            (e, (p.len() + encode_entry_spec(e, pos)->Some_0.len()) as int),
        ),
{
    let t = attr_entry_type(e.1);
    let nl = encode_u64_spec(e.0.len());
    let head = seq![entry_type_byte(t)];
    let base = head + nl + e.0;
    let enc = encode_entry_spec(e, pos)->Some_0;
    let b = p + enc + rest;
    lemma_entry_type_round_trip(t);
    assert(b[p.len() as int] == entry_type_byte(t));
    let tail = match e.1 {
        DirEntryAttribute::Directory { start } => encode_u64_spec((pos - start) as nat),
        DirEntryAttribute::File { size, mtime } => encode_u64_spec(size as nat) + encode_u64_spec(mtime as nat),
        _ => Seq::empty(),
    };
    assert(enc =~= base + tail);
    assert(b =~= (p + head) + nl + (e.0 + tail + rest));
    lemma_dec_at_encoded(p + head, e.0.len(), e.0 + tail + rest);
    let p2: int = (p.len() + 1 + nl.len()) as int;
    assert(b.subrange(p2, p2 + e.0.len()) =~= e.0);
    let p3 = p2 + e.0.len();
    match e.1 {
        DirEntryAttribute::Directory { start } => {
            assert(b =~= (p + base) + encode_u64_spec((pos - start) as nat) + rest);
            lemma_dec_at_encoded(p + base, (pos - start) as nat, rest);
            assert(e == (e.0, DirEntryAttribute::Directory { start: (pos - (pos - start)) as u64 }));
        },
        DirEntryAttribute::File { size, mtime } => {
            assert(b =~= (p + base) + encode_u64_spec(size as nat) + (encode_u64_spec(mtime as nat) + rest));
            lemma_dec_at_encoded(p + base, size as nat, encode_u64_spec(mtime as nat) + rest);
            assert(b =~= (p + base + encode_u64_spec(size as nat)) + encode_u64_spec(mtime as nat) + rest);
            lemma_dec_at_encoded(p + base + encode_u64_spec(size as nat), mtime as nat, rest);
        },
        _ => {},
    }
}

proof fn lemma_encode_entries_front(es: Seq<(Seq<u8>, DirEntryAttribute)>, pos: int)
    requires
        es.len() > 0,
        encode_entries_spec(es, pos) is Some,
    ensures
        encode_entry_spec(es[0], pos) is Some,
        encode_entries_spec(es.subrange(1, es.len() as int), pos) is Some,
        encode_entries_spec(es, pos)->Some_0 == encode_entry_spec(es[0], pos)->Some_0
            + encode_entries_spec(es.subrange(1, es.len() as int), pos)->Some_0,
    decreases es.len(),
{
    let d = es.drop_last();
    if es.len() == 1 {
        assert(d.len() == 0);
        assert(es.subrange(1, 1) =~= Seq::<(Seq<u8>, DirEntryAttribute)>::empty());
        assert(es.last() == es[0]);
        assert(encode_entry_spec(es[0], pos)->Some_0 =~= Seq::<u8>::empty() + encode_entry_spec(es[0], pos)->Some_0);
    } else {
        lemma_encode_entries_front(d, pos);
        let t = es.subrange(1, es.len() as int);
        assert(t.drop_last() =~= d.subrange(1, d.len() as int));
        assert(t.last() == es.last());
        assert(d[0] == es[0]);
    }
}

#[verifier::rlimit(100)]
proof fn lemma_entries_read_back(p: Seq<u8>, es: Seq<(Seq<u8>, DirEntryAttribute)>, pos: int)
    requires
        0 <= pos,
        encode_entries_spec(es, pos) is Some,
        forall|i: int| 0 <= i < es.len() ==> entry_writable(#[trigger] es[i], pos),
    ensures
        parse_entries(p + encode_entries_spec(es, pos)->Some_0, p.len() as int, es.len(), pos) == Some(es),
    decreases es.len(),
{
    let b = p + encode_entries_spec(es, pos)->Some_0;
    if es.len() == 0 {
        assert(b =~= p);
        assert(es =~= Seq::<(Seq<u8>, DirEntryAttribute)>::empty());
    } else {
        lemma_encode_entries_front(es, pos);
        let t = es.subrange(1, es.len() as int);
        let e0 = encode_entry_spec(es[0], pos)->Some_0;
        let et = encode_entries_spec(t, pos)->Some_0;
        assert(b =~= p + e0 + et);
        lemma_entry_read_back(p, es[0], pos, et);
        assert forall|i: int| 0 <= i < t.len() implies entry_writable(#[trigger] t[i], pos) by {
            assert(t[i] == es[i + 1]);
        }
        lemma_entries_read_back(p + e0, t, pos);
        assert((p + e0) + et =~= b);
        assert(seq![es[0]] + t =~= es);
    }
}

/// A directory block reads back as the entries written into it: where the
/// block of `es` is written at offset `prefix.len()` of a catalog, reading
/// that directory gives `es` again (a subdirectory's start included).
pub proof fn lemma_dir_block_read_back(
    prefix: Seq<u8>,
    es: Seq<(Seq<u8>, DirEntryAttribute)>,
    rest: Seq<u8>,
)
    requires
        dir_block_spec(es, prefix.len() as int) is Some,
        forall|i: int| 0 <= i < es.len() ==> entry_writable(#[trigger] es[i], prefix.len() as int),
    ensures
        read_dir_spec(prefix + dir_block_spec(es, prefix.len() as int)->Some_0 + rest, prefix.len() as int)
            == Some(es),
{
    let pos = prefix.len() as int;
    let c = encode_u64_spec(es.len());
    let entries = encode_entries_spec(es, pos)->Some_0;
    let table = c + entries;
    let l = encode_u64_spec(table.len());
    let data = prefix + dir_block_spec(es, pos)->Some_0 + rest;
    assert(dir_block_spec(es, pos)->Some_0 =~= l + table);
    assert(data =~= prefix + l + (table + rest));
    lemma_dec_at_encoded(prefix, table.len(), table + rest);
    let p1 = pos + l.len();
    assert(table.len() >= 1) by {
        assert(c.len() >= 1) by {
            reveal_with_fuel(encode_u64_spec, 2);
        }
    }
    assert(data.subrange(p1, p1 + table.len()) =~= table);
    let e = Seq::<u8>::empty();
    assert(table =~= e + c + entries);
    lemma_dec_at_encoded(e, es.len(), entries);
    lemma_entries_read_back(c, es, pos);
    assert(c + entries =~= table);
}

proof fn lemma_decode_bound(b: Seq<u8>, i: nat)
    requires
        decode_u64_from(b, i) is Some,
    ensures
        decode_u64_from(b, i)->Some_0.1 <= b.len(),
        decode_u64_from(b, i)->Some_0.1 > i,
    decreases 9 - i,
{
    if b[i as int] >= 128 {
        lemma_decode_bound(b, i + 1);
    }
}

proof fn lemma_dec_at_bound(b: Seq<u8>, pos: int)
    requires
        dec_at(b, pos) is Some,
    ensures
        dec_at(b, pos)->Some_0.1 <= b.len(),
        dec_at(b, pos)->Some_0.1 > pos,
{
    let c = b.subrange(pos, b.len() as int);
    lemma_decode_bound(c, 0);
}

proof fn lemma_encode_entries_prefix_none(es: Seq<(Seq<u8>, DirEntryAttribute)>, k: int, pos: int)
    requires
        0 <= k <= es.len(),
        encode_entries_spec(es.subrange(0, k), pos) is None,
    ensures
        encode_entries_spec(es, pos) is None,
    decreases es.len() - k,
{
    if k < es.len() {
        let s = es.subrange(0, k + 1);
        assert(s.drop_last() =~= es.subrange(0, k));
        lemma_encode_entries_prefix_none(es, k + 1, pos);
    } else {
        assert(es.subrange(0, k) =~= es);
    }
}

/// Deserialize a value from the front of `reader`, advancing it past the
/// bytes read. At most nine bytes (63 bits) are read.
pub fn catalog_decode_u64(reader: &mut &[u8]) -> (r: Result<u64, CatalogError>)
    ensures
        match decode_u64_from(old(reader)@, 0) {
            Some((v, n)) => r == Ok::<u64, CatalogError>(v as u64) && v < pow128(9)
                && final(reader)@ == old(reader)@.subrange(n as int, old(reader)@.len() as int),
            None => r == Err::<u64, CatalogError>(decode_u64_error(old(reader)@, 0))
                && final(reader)@ == old(reader)@.subrange(
                if old(reader)@.len() < 9 {
                    old(reader)@.len() as int
                } else {
                    9
                },
                old(reader)@.len() as int,
            ),
        },
{
    let ghost orig = (*reader)@;
    let mut v: u64 = 0;
    let mut mult: u64 = 1;
    let mut i: usize = 0;
    proof {
        lemma_pow128_63();
    }
    while i < 9
        invariant
            0 <= i <= 9,
            i <= orig.len(),
            orig == old(reader)@,
            reader@ == orig.subrange(i as int, orig.len() as int),
            i < 9 ==> mult == pow128(i as nat),
            v < pow128(i as nat),
            pow128(9) == 0x8000_0000_0000_0000,
            decode_u64_from(orig, 0) == match decode_u64_from(orig, i as nat) {
                Some((w, n)) => Some(((v + w) as nat, n)),
                None => None,
            },
            decode_u64_error(orig, 0) == decode_u64_error(orig, i as nat),
        decreases 9 - i,
    {
        if reader.len() == 0 {
            assert(decode_u64_from(orig, i as nat) is None);
            assert(decode_u64_error(orig, i as nat) == CatalogError::UnexpectedEnd);
            assert(reader@ =~= orig.subrange(orig.len() as int, orig.len() as int));
            return Err(CatalogError::UnexpectedEnd);
        }
        let t = reader[0];
        let rest = &reader[1..reader.len()];
        *reader = rest;
        proof {
            assert(reader@ =~= orig.subrange(i + 1, orig.len() as int));
            assert(orig[i as int] == t);
            lemma_pow128_mono(i as nat + 1, 9);
            assert(pow128(i as nat + 1) == 128 * pow128(i as nat));
        }
        if t < 128 {
            assert((t as nat) * pow128(i as nat) <= 127 * pow128(i as nat)) by (nonlinear_arith)
                requires t < 128;
            assert(decode_u64_from(orig, i as nat) == Some(
                ((t as nat) * pow128(i as nat), (i + 1) as nat),
            ));
            let r = v + (t as u64) * mult;
            assert(r < pow128(9));
            return Ok(r);
        }
        assert(((t - 128) as nat) * pow128(i as nat) <= 127 * pow128(i as nat)) by (nonlinear_arith)
            requires t < 256, t >= 128;
        v = v + ((t - 128) as u64) * mult;
        i = i + 1;
        if i < 9 {
            mult = mult * 128;
        }
    }
    assert(decode_u64_from(orig, 9) is None);
    assert(decode_u64_error(orig, 9) == CatalogError::MissingEndMarker);
    Err(CatalogError::MissingEndMarker)
}

proof fn lemma_decode_encode(p: Seq<u8>, w: nat, rest: Seq<u8>)
    requires
        p.len() < 9,
        w < pow128((9 - p.len()) as nat),
    ensures
        decode_u64_from(p + encode_u64_spec(w) + rest, p.len()) == Some(
            (w * pow128(p.len()), p.len() + encode_u64_spec(w).len()),
        ),
    decreases w,
{
    let b = p + encode_u64_spec(w) + rest;
    let i = p.len();
    if w < 128 {
        assert(b[i as int] == w as u8);
    } else {
        let byte = (128 + w % 128) as u8;
        let p2 = p.push(byte);
        assert(b =~= p2 + encode_u64_spec(w / 128) + rest);
        assert(b[i as int] == byte);
        assert(pow128((9 - p.len()) as nat) == 128 * pow128((9 - p.len() - 1) as nat));
        if p.len() == 8 {
            assert(pow128(1) == 128) by {
                reveal_with_fuel(pow128, 2);
            }
            assert(false);
        }
        assert(w / 128 < pow128((9 - p2.len()) as nat)) by (nonlinear_arith)
            requires
                w < 128 * pow128((9 - p2.len()) as nat),
        ;
        lemma_decode_encode(p2, w / 128, rest);
        assert(pow128(i + 1) == 128 * pow128(i));
        assert((w % 128) * pow128(i) + (w / 128) * (128 * pow128(i)) == w * pow128(i))
            by (nonlinear_arith);
    }
}

/// Decoding the encoding of a value below 2^63 gives the value back and
/// consumes exactly the encoded bytes, whatever follows them.
pub proof fn lemma_catalog_u64_round_trip(v: u64, rest: Seq<u8>)
    requires
        v < 0x8000_0000_0000_0000,
    ensures
        decode_u64_from(encode_u64_spec(v as nat) + rest, 0) == Some(
            (v as nat, encode_u64_spec(v as nat).len()),
        ),
{
    lemma_pow128_63();
    let e = Seq::<u8>::empty();
    assert(e + encode_u64_spec(v as nat) + rest =~= encode_u64_spec(v as nat) + rest);
    lemma_decode_encode(e, v as nat, rest);
    assert(pow128(0) == 1);
}

proof fn lemma_pow128_mono(a: nat, b: nat)
    requires
        a <= b,
    ensures
        pow128(a) <= pow128(b),
    decreases b - a,
{
    if a < b {
        lemma_pow128_mono(a, (b - 1) as nat);
        lemma_pow128_pos((b - 1) as nat);
    }
}

} // verus!
