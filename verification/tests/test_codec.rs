use uu_tar::header::{Header, TarType};

fn sample_header(size: usize) -> Header {
    Header::new_ustar(
        "file1.txt".to_string(),
        420,
        1000,
        1000,
        size,
        1_700_000_000,
        TarType::Normal,
    )
}

#[test]
fn test_encoded_block_is_one_block() {
    let h = sample_header(7);
    let block = h.encode();
    assert_eq!(block.len(), 512);
}

#[test]
fn test_size_field_fidelity() {
    for n in [0usize, 1, 511, 512, 513, 1_000_000] {
        let h = sample_header(n);
        let block = h.encode();
        let decoded = Header::parse(block.as_slice()).expect("decode");
        assert_eq!(decoded.size(), n);
    }
}

#[test]
fn test_decode_reads_fields_back() {
    let h = Header::new_ustar(
        "dir/sub/file.bin".to_string(),
        493,
        12,
        34,
        4096,
        123_456_789,
        TarType::Directory,
    );
    let block = h.encode();
    let d = Header::parse(block.as_slice()).expect("decode");
    assert_eq!(d.name(), "dir/sub/file.bin");
    assert_eq!(d.mode(), 493);
    assert_eq!(d.uid(), 12);
    assert_eq!(d.gid(), 34);
    assert_eq!(d.size(), 4096);
    assert_eq!(d.mtime(), 123_456_789);
    assert_eq!(d.typeflag(), TarType::Directory);
    assert_eq!(d.linkname(), "");
}

#[test]
fn test_checksum_determinism() {
    let h = sample_header(99);
    let b1 = h.encode();
    let b2 = h.encode();
    assert_eq!(b1, b2);
    let d1 = Header::parse(b1.as_slice()).expect("decode");
    let d2 = Header::parse(b2.as_slice()).expect("decode");
    assert_eq!(d1.chksum(), d2.chksum());
    assert!(d1.chksum() > 0);
}

#[test]
fn test_checksum_field_does_not_touch_others() {
    let h = sample_header(1234);
    let block = h.encode();
    let d1 = Header::parse(block.as_slice()).expect("decode");

    // overwrite the checksum region with different digits
    let mut other = block.clone();
    for b in other.iter_mut().take(156).skip(148) {
        *b = b'7';
    }
    let d2 = Header::parse(other.as_slice()).expect("decode");
    assert_ne!(d1.chksum(), d2.chksum());
    assert_eq!(d1.name(), d2.name());
    assert_eq!(d1.mode(), d2.mode());
    assert_eq!(d1.uid(), d2.uid());
    assert_eq!(d1.gid(), d2.gid());
    assert_eq!(d1.size(), d2.size());
    assert_eq!(d1.mtime(), d2.mtime());
    assert_eq!(d1.typeflag(), d2.typeflag());
}

#[test]
fn test_numeric_field_degrades_to_zero() {
    let h = sample_header(5);
    let mut block = h.encode();
    // an eight or nine in the size field is not octal: the field reads zero
    block[124] = b'9';
    let d = Header::parse(block.as_slice()).expect("decode");
    assert_eq!(d.size(), 0);
}

#[test]
fn test_text_field_filters_nul_and_non_ascii() {
    let h = sample_header(5);
    let mut block = h.encode();
    // a non-ASCII byte inside the name field is dropped
    block[0] = 0xff;
    let d = Header::parse(block.as_slice()).expect("decode");
    assert_eq!(d.name(), "ile1.txt");
}

#[test]
fn test_typeflag_unknown_maps_to_normal() {
    let h = sample_header(5);
    let mut block = h.encode();
    block[156] = b'z';
    let d = Header::parse(block.as_slice()).expect("decode");
    assert_eq!(d.typeflag(), TarType::Normal);
    block[156] = b'5';
    let d = Header::parse(block.as_slice()).expect("decode");
    assert_eq!(d.typeflag(), TarType::Directory);
}

#[test]
fn test_tar_type_try_from() {
    assert_eq!(TarType::try_from(0).unwrap(), TarType::Normal);
    assert_eq!(TarType::try_from(1).unwrap(), TarType::HardLink);
    assert_eq!(TarType::try_from(2).unwrap(), TarType::SymbolicLink);
    assert_eq!(TarType::try_from(3).unwrap(), TarType::CharacterSpecial);
    assert_eq!(TarType::try_from(4).unwrap(), TarType::BlockSpecial);
    assert_eq!(TarType::try_from(5).unwrap(), TarType::Directory);
    assert_eq!(TarType::try_from(6).unwrap(), TarType::FIFO);
    assert_eq!(TarType::try_from(7).unwrap(), TarType::Contiguous);
    assert!(TarType::try_from(8).is_err());
    assert!(TarType::try_from(-1).is_err());
}

#[test]
fn test_default_header_is_empty() {
    let h = Header::default();
    assert_eq!(h.name(), "");
    assert_eq!(h.size(), 0);
    assert_eq!(h.mode(), 0);
    assert_eq!(h.mtime(), 0);
    assert_eq!(h.typeflag(), TarType::Normal);
    assert!(h.uname().is_none());
    assert!(h.gname().is_none());
}

#[test]
fn test_magic_survives_round_trip() {
    let h = sample_header(3);
    let block = h.encode();
    assert_eq!(&block[257..263], b"ustar ");
    let d = Header::parse(block.as_slice()).expect("decode");
    let redone = d.encode();
    assert_eq!(block, redone);
}

#[test]
fn test_parse_checked_magic() {
    let h = sample_header(3);
    let mut block = h.encode();
    assert!(Header::parse_checked(block.as_slice(), true).is_ok());
    assert!(Header::parse_checked(block.as_slice(), false).is_ok());
    // corrupt the magic: the strict decode refuses, the lenient one does not
    block[257] = b'v';
    assert!(Header::parse_checked(block.as_slice(), true).is_err());
    assert!(Header::parse_checked(block.as_slice(), false).is_ok());
}
