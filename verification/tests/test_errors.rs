use uu_tar::errors::{IoFailure, IoKind, TarError};

#[test]
fn test_tar_error_display() {
    let err = TarError::FileNotFound("test.txt".to_string());
    assert_eq!(err.message(), "File not found: test.txt");

    let err = TarError::InvalidArchive("corrupted header".to_string());
    assert_eq!(err.message(), "Invalid archive: corrupted header");

    let err = TarError::PermissionDenied("/root/file".to_string());
    assert_eq!(err.message(), "Permission denied: /root/file");

    let err = TarError::TarOperationError("failed to write".to_string());
    assert_eq!(err.message(), "tar: failed to write");
}

#[test]
fn test_tar_error_code() {
    assert_eq!(TarError::FileNotFound("test".to_string()).code(), 1);
    assert_eq!(TarError::InvalidArchive("test".to_string()).code(), 2);
    assert_eq!(TarError::PermissionDenied("test".to_string()).code(), 1);
    assert_eq!(TarError::TarOperationError("test".to_string()).code(), 1);
}

#[test]
fn test_io_error_conversion_not_found() {
    let io_err = IoFailure {
        kind: IoKind::NotFound,
        message: "file not found".to_string(),
    };
    let tar_err = TarError::from(io_err);

    match tar_err {
        TarError::FileNotFound(msg) => assert!(msg.contains("file not found")),
        _ => panic!("Expected FileNotFound variant"),
    }
}

#[test]
fn test_io_error_conversion_permission_denied() {
    let io_err = IoFailure {
        kind: IoKind::PermissionDenied,
        message: "access denied".to_string(),
    };
    let tar_err = TarError::from(io_err);

    match tar_err {
        TarError::PermissionDenied(msg) => assert!(msg.contains("access denied")),
        _ => panic!("Expected PermissionDenied variant"),
    }
}

#[test]
fn test_io_error_conversion_other() {
    let io_err = IoFailure {
        kind: IoKind::Other,
        message: "pipe broken".to_string(),
    };
    let tar_err = TarError::from(io_err);

    match tar_err {
        TarError::IoError(msg) => assert_eq!(msg, "pipe broken"),
        _ => panic!("Expected IoError variant"),
    }
}

#[test]
fn test_error_source() {
    let tar_err = TarError::IoError("some error".to_string());

    // IoError should have a source
    assert!(tar_err.source().is_some());

    // Other variants should not have a source
    let tar_err = TarError::FileNotFound("test".to_string());
    assert!(tar_err.source().is_none());
}

#[test]
fn test_tar_error_is_debug() {
    let err = TarError::TarOperationError("test".to_string());
    let debug_str = format!("{err:?}");
    assert!(debug_str.contains("TarOperationError"));
    assert!(debug_str.contains("test"));
}

#[test]
fn test_from_io_error_uses_path() {
    let io_err = IoFailure {
        kind: IoKind::NotFound,
        message: "No such file or directory (os error 2)".to_string(),
    };
    let tar_err = TarError::from_io_error(io_err, "missing.txt");
    match tar_err {
        TarError::FileNotFound(path) => assert_eq!(path, "missing.txt"),
        _ => panic!("Expected FileNotFound variant"),
    }

    let io_err = IoFailure {
        kind: IoKind::Other,
        message: "pipe broken".to_string(),
    };
    let tar_err = TarError::from_io_error(io_err, "whatever");
    match tar_err {
        TarError::IoError(msg) => assert_eq!(msg, "pipe broken"),
        _ => panic!("Expected IoError variant"),
    }
}
