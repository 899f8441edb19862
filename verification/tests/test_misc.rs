use uu_tar::normalize::{normalize, normalize_path};
use uu_tar::operation::{Operation, OperationKind};
use uu_tar::options::TarOptions;
use uu_tar::params::TarParams;

#[test]
fn test_normalize_absolute_path() {
    let (name, stripped) = normalize("/a/b/c");
    assert_eq!(name, "a/b/c");
    assert_eq!(stripped, 1);
}

#[test]
fn test_normalize_relative_path() {
    let (name, stripped) = normalize("a/b/c");
    assert_eq!(name, "a/b/c");
    assert_eq!(stripped, 0);
}

#[test]
fn test_normalize_parent_segments() {
    let (name, stripped) = normalize("/../a/../b");
    assert_eq!(name, "a/b");
    assert_eq!(stripped, 3);
}

#[test]
fn test_normalize_path_option() {
    assert_eq!(normalize_path("/a/b"), Some("a/b".to_string()));
    assert_eq!(normalize_path("a/b"), None);
    assert_eq!(normalize_path("/"), Some(String::new()));
}

#[test]
fn test_format_perms_u16() {
    assert_eq!(uu_tar::util::format_perms(644u16), "-rw-r--r--");
    assert_eq!(uu_tar::util::format_perms(755u16), "-rwxr-xr-x");
    assert_eq!(uu_tar::util::format_perms(0u16), "d---------");
    assert_eq!(uu_tar::util::format_perms(40755u16), "drwxr-xr-x");
}

#[test]
fn test_format_perms_u32() {
    assert_eq!(uu_tar::list::format_perms(644u32), "-rw-r--r--");
    assert_eq!(uu_tar::list::format_perms(600u32), "-rw-------");
    assert_eq!(uu_tar::list::format_perms(1001u32), "d-w------x");
}

#[test]
fn test_mode_octal_to_string() {
    let mut buf = vec!['-', '-', '-'];
    uu_tar::util::mode_octal_to_string(6u16, &mut buf);
    assert_eq!(buf, vec!['r', 'w', '-']);

    let mut buf = vec!['-', '-', '-'];
    uu_tar::list::mode_octal_to_string(5u32, &mut buf);
    assert_eq!(buf, vec!['r', '-', 'x']);
}

#[test]
fn test_operation_try_from() {
    assert_eq!(Operation::try_from("create").unwrap(), Operation::Create);
    assert_eq!(Operation::try_from("extract").unwrap(), Operation::Extract);
    assert_eq!(Operation::try_from("list").unwrap(), Operation::List);
    assert_eq!(Operation::try_from("concate").unwrap(), Operation::Concatenate);
    let err = Operation::try_from("bogus").unwrap_err();
    assert_eq!(err.message(), "tar: Invalid operation selected: bogus");
}

#[test]
fn test_operation_kind_try_from() {
    assert_eq!(
        OperationKind::try_from("create").unwrap(),
        OperationKind::Create
    );
    assert_eq!(
        OperationKind::try_from("update").unwrap(),
        OperationKind::Update
    );
    assert!(OperationKind::try_from("nope").is_err());
}

#[test]
fn test_tar_options_accessors() {
    let mut opts = TarOptions::default();
    assert!(opts.files().is_empty());
    assert!(opts.options().is_empty());
    assert_eq!(opts.archive(), "");
    opts.files_mut().push("file1.txt".to_string());
    opts.archive_mut().push_str("archive.tar");
    opts.options_mut()
        .push(uu_tar::options::TarOption::Verbose);
    assert_eq!(opts.files(), &vec!["file1.txt".to_string()]);
    assert_eq!(opts.archive(), "archive.tar");
    assert_eq!(opts.options().len(), 1);
}

#[test]
fn test_tar_params_accessors() {
    let mut params = TarParams::default();
    assert!(params.files().is_empty());
    assert!(params.options().is_empty());
    assert_eq!(params.archive(), "");
    params.files_mut().push("file2.txt".to_string());
    params.archive_mut().push_str("out.tar");
    params
        .options_mut()
        .push(uu_tar::params::TarOption::Verbose);
    assert_eq!(params.files(), &vec!["file2.txt".to_string()]);
    assert_eq!(params.archive(), "out.tar");
    assert_eq!(params.options().len(), 1);
}

#[test]
fn test_normalize_repeated_and_trailing_slashes() {
    let (name, stripped) = normalize("/a//b/");
    assert_eq!(name, "a/b");
    assert_eq!(stripped, 1);
}

#[test]
fn test_normalize_root_only() {
    let (name, stripped) = normalize("/");
    assert_eq!(name, "");
    assert_eq!(stripped, 1);

    let (name, stripped) = normalize("/..");
    assert_eq!(name, "");
    assert_eq!(stripped, 2);
}
