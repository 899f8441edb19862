use uu_tar::create::{create_archive, EntryData, InputEntry};
use uu_tar::errors::TarError;
use uu_tar::extract::extract_archive;
use uu_tar::header::TarType;
use uu_tar::list::list_lines;
use uu_tar::scanner::{Archive, ScanState};

fn file_entry(path: &str, content: &[u8]) -> InputEntry {
    InputEntry {
        path: path.to_string(),
        data: Some(EntryData {
            is_dir: false,
            content: content.to_vec(),
            mode: 420,
            uid: 1000,
            gid: 1000,
            mtime: 1_700_000_000,
        }),
    }
}

fn dir_entry(path: &str) -> InputEntry {
    InputEntry {
        path: path.to_string(),
        data: Some(EntryData {
            is_dir: true,
            content: Vec::new(),
            mode: 493,
            uid: 1000,
            gid: 1000,
            mtime: 1_700_000_000,
        }),
    }
}

#[test]
fn test_create_empty_list_refused() {
    let entries: Vec<InputEntry> = Vec::new();
    match create_archive(&entries) {
        Err(TarError::TarOperationError(msg)) => {
            assert_eq!(msg, "refusing to create an empty archive");
        }
        other => panic!("expected an operation error, got {other:?}"),
    }
}

#[test]
fn test_create_missing_input() {
    let entries = vec![InputEntry {
        path: "nofile.txt".to_string(),
        data: None,
    }];
    match create_archive(&entries) {
        Err(TarError::FileNotFound(path)) => assert_eq!(path, "nofile.txt"),
        other => panic!("expected not-found, got {other:?}"),
    }
}

#[test]
fn test_create_missing_input_creates_nothing() {
    let entries = vec![
        file_entry("file1.txt", b"content1"),
        InputEntry {
            path: "nofile.txt".to_string(),
            data: None,
        },
    ];
    assert!(create_archive(&entries).is_err());
}

#[test]
fn test_round_trip_single_file() {
    let entries = vec![file_entry("original.txt", b"test content")];
    let bytes = create_archive(&entries).expect("create");
    let extracted = extract_archive(&bytes).expect("extract");
    assert_eq!(extracted.len(), 1);
    assert_eq!(extracted[0].name, "original.txt");
    assert_eq!(extracted[0].typeflag, TarType::Normal);
    assert_eq!(extracted[0].data, b"test content".to_vec());
}

#[test]
fn test_round_trip_files_and_directories() {
    let entries = vec![
        dir_entry("dir1"),
        file_entry("dir1/file1.txt", b"test content 1"),
        dir_entry("dir1/dir2"),
        file_entry("dir1/dir2/file2.txt", b"test content 2"),
    ];
    let bytes = create_archive(&entries).expect("create");
    let extracted = extract_archive(&bytes).expect("extract");
    assert_eq!(extracted.len(), 4);
    assert_eq!(extracted[0].name, "dir1");
    assert_eq!(extracted[0].typeflag, TarType::Directory);
    assert_eq!(extracted[1].name, "dir1/file1.txt");
    assert_eq!(extracted[1].data, b"test content 1".to_vec());
    assert_eq!(extracted[2].name, "dir1/dir2");
    assert_eq!(extracted[2].typeflag, TarType::Directory);
    assert_eq!(extracted[3].name, "dir1/dir2/file2.txt");
    assert_eq!(extracted[3].data, b"test content 2".to_vec());
}

#[test]
fn test_round_trip_absolute_path_is_normalized() {
    let entries = vec![file_entry("/tmp/file1.txt", b"content1")];
    let bytes = create_archive(&entries).expect("create");
    let extracted = extract_archive(&bytes).expect("extract");
    assert_eq!(extracted[0].name, "tmp/file1.txt");
    assert_eq!(extracted[0].data, b"content1".to_vec());
}

#[test]
fn test_block_padding() {
    for content in [&b""[..], b"x", &[7u8; 511], &[7u8; 512], &[7u8; 513]] {
        let entries = vec![file_entry("file1.txt", content)];
        let bytes = create_archive(&entries).expect("create");
        // member image plus the two trailer blocks, all whole blocks
        assert_eq!(bytes.len() % 512, 0);
        let data_region = bytes.len() - 512 - 1024;
        assert_eq!(data_region % 512, 0);
        assert!(data_region >= content.len());
        assert!(data_region >= 512);
    }
}

#[test]
fn test_termination_detection() {
    let entries = vec![
        file_entry("file1.txt", b"content1"),
        file_entry("file2.txt", b"content2"),
    ];
    let bytes = create_archive(&entries).expect("create");

    // the built archive ends with exactly two all-zero blocks
    let (archive, state) = Archive::scan(&bytes).expect("scan");
    assert_eq!(archive.members().len(), 2);
    assert_eq!(state, ScanState::Terminated);

    // with only one trailing zero block the end is tolerated, not clean
    let truncated = bytes[..bytes.len() - 512].to_vec();
    let (archive, state) = Archive::scan(&truncated).expect("scan");
    assert_eq!(archive.members().len(), 2);
    assert_eq!(state, ScanState::SawOneZeroBlock);

    // with no trailer at all the scan still finds both members
    let bare = bytes[..bytes.len() - 1024].to_vec();
    let (archive, state) = Archive::scan(&bare).expect("scan");
    assert_eq!(archive.members().len(), 2);
    assert_eq!(state, ScanState::ExpectHeaderOrZero);
}

#[test]
fn test_corrupted_archive_refused() {
    let garbage = vec![0x41u8; 100];
    match extract_archive(&garbage) {
        Err(TarError::InvalidArchive(_)) => {}
        other => panic!("expected invalid-archive, got {other:?}"),
    }

    let mut truncated_member = Vec::new();
    let entries = vec![file_entry("file1.txt", b"content1")];
    let bytes = create_archive(&entries).expect("create");
    truncated_member.extend_from_slice(&bytes[..700]);
    match extract_archive(&truncated_member) {
        Err(TarError::InvalidArchive(_)) => {}
        other => panic!("expected invalid-archive, got {other:?}"),
    }
}

#[test]
fn test_data_running_past_end_refused() {
    let entries = vec![file_entry("file1.txt", b"content1")];
    let bytes = create_archive(&entries).expect("create");
    // keep the header block only: the member's data region runs past the end
    let header_only = bytes[..512].to_vec();
    match Archive::scan(&header_only) {
        Err(TarError::InvalidArchive(_)) => {}
        other => panic!("expected invalid-archive, got {other:?}"),
    }
}

#[test]
fn test_verbose_listing_order() {
    let entries = vec![
        file_entry("file1.txt", b"a"),
        file_entry("file2.txt", b"b"),
    ];
    let bytes = create_archive(&entries).expect("create");
    let (archive, _) = Archive::scan(&bytes).expect("scan");

    let plain = list_lines(&archive, false);
    assert_eq!(plain, vec!["file1.txt".to_string(), "file2.txt".to_string()]);

    let verbose = list_lines(&archive, true);
    assert_eq!(verbose.len(), 2);
    assert!(verbose[0].ends_with(" file1.txt"));
    assert!(verbose[1].ends_with(" file2.txt"));
    assert!(verbose[0].starts_with("-r---w----"));
}

#[test]
fn test_member_offsets() {
    let entries = vec![
        file_entry("file1.txt", b"content1"),
        file_entry("file2.txt", b"content2"),
    ];
    let bytes = create_archive(&entries).expect("create");
    let (archive, _) = Archive::scan(&bytes).expect("scan");
    let members = archive.members();
    assert_eq!(members[0].header_start(), 0);
    assert_eq!(members[0].data_start(), 512);
    assert_eq!(members[1].header_start(), 1024);
    assert_eq!(members[1].data_start(), 1536);
    assert_eq!(members[0].header().name(), "file1.txt");
    assert_eq!(members[1].header().name(), "file2.txt");
}

#[test]
fn test_read_archives_list() {
    let one = create_archive(&vec![file_entry("a.txt", b"a")]).expect("create");
    let two = create_archive(&vec![file_entry("b.txt", b"b")]).expect("create");
    let streams = vec![one, two];
    let list = Archive::read_archives(&streams).expect("scan all");
    let archives = list.into_vec();
    assert_eq!(archives.len(), 2);
    assert_eq!(archives[0].members()[0].header().name(), "a.txt");
    assert_eq!(archives[1].members()[0].header().name(), "b.txt");
}

#[test]
fn test_create_rejects_oversized_name() {
    let long_name = "a/".repeat(60) + "f.txt";
    let entries = vec![file_entry(&long_name, b"x")];
    match create_archive(&entries) {
        Err(TarError::TarOperationError(_)) => {}
        other => panic!("expected an operation error, got {other:?}"),
    }
}

#[test]
fn test_empty_file_round_trips() {
    let entries = vec![file_entry("empty.txt", b"")];
    let bytes = create_archive(&entries).expect("create");
    let extracted = extract_archive(&bytes).expect("extract");
    assert_eq!(extracted.len(), 1);
    assert_eq!(extracted[0].data.len(), 0);
}
