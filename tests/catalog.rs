use proxmox_backup::catalog::{
    catalog_decode_u64, catalog_encode_u64, CatalogEntryType, CatalogError, CatalogReader,
    CatalogWriter, DirEntry, DirEntryAttribute,
};

fn test_encode_decode(value: u64) {
    let mut data = Vec::new();
    catalog_encode_u64(&mut data, value).unwrap();

    let slice = &mut &data[..];
    let decoded = catalog_decode_u64(slice).unwrap();

    assert!(decoded == value);
}

#[test]
fn test_catalog_u64_encoder() {
    test_encode_decode(126);
    test_encode_decode((1 << 12) - 1);
    test_encode_decode((1 << 20) - 1);
    test_encode_decode((1 << 50) - 1);
    test_encode_decode((1 << 63) - 1);
}

#[test]
fn encode_u64_exact_bytes() {
    let mut data = Vec::new();
    catalog_encode_u64(&mut data, 127).unwrap();
    assert_eq!(data, vec![127]);
    let mut data = Vec::new();
    catalog_encode_u64(&mut data, 300).unwrap();
    assert_eq!(data, vec![0xac, 0x02]);
}

#[test]
fn encode_u64_rejects_large_values() {
    let mut data = vec![1u8];
    assert_eq!(catalog_encode_u64(&mut data, 1 << 63), Err(CatalogError::ValueTooLarge));
    assert_eq!(data, vec![1u8]);
}

#[test]
fn decode_u64_errors_and_rest() {
    let bytes = [0x80u8, 0x80];
    let slice = &mut &bytes[..];
    assert_eq!(catalog_decode_u64(slice), Err(CatalogError::UnexpectedEnd));
    let bytes = [0xffu8; 10];
    let slice = &mut &bytes[..];
    assert_eq!(catalog_decode_u64(slice), Err(CatalogError::MissingEndMarker));
    let bytes = [0xacu8, 0x02, 7];
    let slice = &mut &bytes[..];
    assert_eq!(catalog_decode_u64(slice), Ok(300));
    assert_eq!(*slice, &[7u8][..]);
}

fn sample_catalog() -> Vec<u8> {
    let mut w = CatalogWriter::new().unwrap();
    w.add_file(b"a.txt", 10, 1000).unwrap();
    w.start_directory(b"sub").unwrap();
    w.add_symlink(b"link").unwrap();
    w.add_file(b"b.bin", 20, 2000).unwrap();
    w.end_directory().unwrap();
    w.add_socket(b"sock").unwrap();
    w.finish().unwrap();
    w.into_inner()
}

#[test]
fn catalog_write_then_read() {
    let data = sample_catalog();
    let reader = CatalogReader::new(data);
    let root = reader.root().unwrap();
    assert!(root.is_directory());
    let list = reader.read_dir(&root).unwrap();
    assert_eq!(list.len(), 3);
    assert_eq!(list[0].name, b"a.txt".to_vec());
    assert_eq!(list[0].attr, DirEntryAttribute::File { size: 10, mtime: 1000 });
    assert_eq!(list[1].name, b"sub".to_vec());
    assert!(list[1].is_directory());
    assert_eq!(list[2].attr, DirEntryAttribute::Socket);

    let sub = reader.lookup(&root, b"sub").unwrap().unwrap();
    let inner = reader.read_dir(&sub).unwrap();
    assert_eq!(inner.len(), 2);
    assert!(inner[0].is_symlink());
    assert_eq!(inner[1].attr, DirEntryAttribute::File { size: 20, mtime: 2000 });
    assert!(reader.lookup(&root, b"missing").unwrap().is_none());

    let file = DirEntry { name: b"x".to_vec(), attr: DirEntryAttribute::Fifo };
    assert_eq!(reader.read_dir(&file), Err(CatalogError::NotADirectory));
}

#[test]
fn catalog_dump_lists_paths() {
    let reader = CatalogReader::new(sample_catalog());
    let items = reader.dump().unwrap();
    let paths: Vec<Vec<u8>> = items.iter().map(|i| i.path.clone()).collect();
    assert_eq!(
        paths,
        vec![
            b"./a.txt".to_vec(),
            b"./sub".to_vec(),
            b"./sub/link".to_vec(),
            b"./sub/b.bin".to_vec(),
            b"./sock".to_vec(),
        ]
    );
    assert_eq!(items[0].etype, CatalogEntryType::File);
    assert_eq!(items[0].size, 10);
    assert_eq!(items[1].etype, CatalogEntryType::Directory);
}

#[test]
fn catalog_bad_magic_and_unbalanced() {
    let reader = CatalogReader::new(vec![0u8; 16]);
    assert_eq!(reader.root(), Err(CatalogError::BadMagic));
    let mut w = CatalogWriter::new().unwrap();
    w.start_directory(b"d").unwrap();
    assert_eq!(w.finish(), Err(CatalogError::Unbalanced));
}

#[test]
fn entry_type_letters() {
    assert_eq!(CatalogEntryType::from_u8(b'd'), Ok(CatalogEntryType::Directory));
    assert_eq!(CatalogEntryType::from_u8(b's'), Ok(CatalogEntryType::Socket));
    assert_eq!(CatalogEntryType::from_u8(b'x'), Err(CatalogError::InvalidEntryType));
    assert_eq!(CatalogEntryType::Fifo.as_u8(), b'p');
}
