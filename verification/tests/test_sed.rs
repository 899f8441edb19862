use uu_tar::sed::{get_scripts_files, ScriptArgs, ScriptValue};

// Helper function for supplying arguments
fn args(
    script: Option<&str>,
    expressions: &[(usize, &str)],
    script_files: &[(usize, &str)],
    files: &[&str],
) -> ScriptArgs {
    ScriptArgs {
        script: script.map(|s| s.to_string()),
        expressions: expressions
            .iter()
            .map(|(i, s)| (*i, s.to_string()))
            .collect(),
        script_files: script_files
            .iter()
            .map(|(i, s)| (*i, s.to_string()))
            .collect(),
        files: files.iter().map(|s| s.to_string()).collect(),
    }
}

#[test]
fn test_script_as_first_argument() {
    let matches = args(Some("1d"), &[], &[], &["file1.txt"]);
    let (scripts, files) = get_scripts_files(&matches).expect("Should succeed");

    assert_eq!(scripts, vec![ScriptValue::StringVal("1d".to_string())]);
    assert_eq!(files, vec!["file1.txt".to_string()]);
}

#[test]
fn test_expression_argument() {
    let matches = args(Some("file1.txt"), &[(1, "s/foo/bar/")], &[], &[]);
    let (scripts, files) = get_scripts_files(&matches).expect("Should succeed");

    assert_eq!(
        scripts,
        vec![ScriptValue::StringVal("s/foo/bar/".to_string())]
    );
    assert_eq!(files, vec!["file1.txt".to_string()]);
}

#[test]
fn test_script_file_argument() {
    let matches = args(Some("file1.txt"), &[], &[(1, "script.sed")], &[]);
    let (scripts, files) = get_scripts_files(&matches).expect("Should succeed");

    assert_eq!(
        scripts,
        vec![ScriptValue::PathVal("script.sed".to_string())]
    );
    assert_eq!(files, vec!["file1.txt".to_string()]);
}

#[test]
fn test_multiple_files() {
    let matches = args(Some("file1.txt"), &[(1, "s/foo/bar/")], &[], &["file2.txt"]);
    let (scripts, files) = get_scripts_files(&matches).expect("Should succeed");

    assert_eq!(
        scripts,
        vec![ScriptValue::StringVal("s/foo/bar/".to_string())]
    );
    assert_eq!(
        files,
        vec!["file1.txt".to_string(), "file2.txt".to_string()]
    );
}

#[test]
fn test_multiple_files_script() {
    let matches = args(Some("s/foo/bar/"), &[], &[], &["file1.txt", "file2.txt"]);
    let (scripts, files) = get_scripts_files(&matches).expect("Should succeed");

    assert_eq!(
        scripts,
        vec![ScriptValue::StringVal("s/foo/bar/".to_string())]
    );
    assert_eq!(
        files,
        vec!["file1.txt".to_string(), "file2.txt".to_string()]
    );
}

#[test]
fn test_stdin_when_no_files() {
    let matches = args(None, &[(1, "s/foo/bar/")], &[], &[]);
    let (scripts, files) = get_scripts_files(&matches).expect("Should succeed");

    assert_eq!(
        scripts,
        vec![ScriptValue::StringVal("s/foo/bar/".to_string())]
    );
    assert_eq!(files, vec!["-".to_string()]); // Stdin should be used
}

#[test]
fn test_stdin_when_no_files_script() {
    let matches = args(Some("s/foo/bar/"), &[], &[], &[]);
    let (scripts, files) = get_scripts_files(&matches).expect("Should succeed");

    assert_eq!(
        scripts,
        vec![ScriptValue::StringVal("s/foo/bar/".to_string())]
    );
    assert_eq!(files, vec!["-".to_string()]); // Stdin should be used
}

#[test]
fn sed_test_script_as_first_argument() {
    let matches = args(Some("1d"), &[], &[], &["file1.txt"]);
    let (scripts, files) = get_scripts_files(&matches).expect("Should succeed");

    assert_eq!(scripts, vec![ScriptValue::StringVal("1d".to_string())]);
    assert_eq!(files, vec!["file1.txt".to_string()]);
}

#[test]
fn sed_test_expression_argument() {
    let matches = args(Some("file1.txt"), &[(1, "s/foo/bar/")], &[], &[]);
    let (scripts, files) = get_scripts_files(&matches).expect("Should succeed");

    assert_eq!(
        scripts,
        vec![ScriptValue::StringVal("s/foo/bar/".to_string())]
    );
    assert_eq!(files, vec!["file1.txt".to_string()]);
}

#[test]
fn sed_test_script_file_argument() {
    let matches = args(Some("file1.txt"), &[], &[(1, "script.sed")], &[]);
    let (scripts, files) = get_scripts_files(&matches).expect("Should succeed");

    assert_eq!(
        scripts,
        vec![ScriptValue::PathVal("script.sed".to_string())]
    );
    assert_eq!(files, vec!["file1.txt".to_string()]);
}

#[test]
fn sed_test_multiple_files() {
    let matches = args(Some("file1.txt"), &[(1, "s/foo/bar/")], &[], &["file2.txt"]);
    let (scripts, files) = get_scripts_files(&matches).expect("Should succeed");

    assert_eq!(
        scripts,
        vec![ScriptValue::StringVal("s/foo/bar/".to_string())]
    );
    assert_eq!(
        files,
        vec!["file1.txt".to_string(), "file2.txt".to_string()]
    );
}

#[test]
fn sed_test_multiple_files_script() {
    let matches = args(Some("s/foo/bar/"), &[], &[], &["file1.txt", "file2.txt"]);
    let (scripts, files) = get_scripts_files(&matches).expect("Should succeed");

    assert_eq!(
        scripts,
        vec![ScriptValue::StringVal("s/foo/bar/".to_string())]
    );
    assert_eq!(
        files,
        vec!["file1.txt".to_string(), "file2.txt".to_string()]
    );
}

#[test]
fn sed_test_stdin_when_no_files() {
    let matches = args(None, &[(1, "s/foo/bar/")], &[], &[]);
    let (scripts, files) = get_scripts_files(&matches).expect("Should succeed");

    assert_eq!(
        scripts,
        vec![ScriptValue::StringVal("s/foo/bar/".to_string())]
    );
    assert_eq!(files, vec!["-".to_string()]);
}

#[test]
fn sed_test_stdin_when_no_files_script() {
    let matches = args(Some("s/foo/bar/"), &[], &[], &[]);
    let (scripts, files) = get_scripts_files(&matches).expect("Should succeed");

    assert_eq!(
        scripts,
        vec![ScriptValue::StringVal("s/foo/bar/".to_string())]
    );
    assert_eq!(files, vec!["-".to_string()]);
}

#[test]
fn test_missing_script_argument() {
    let matches = args(None, &[], &[], &[]);
    let err = get_scripts_files(&matches).expect_err("missing script");
    assert!(err.contains("missing script"));
}

#[test]
fn test_positional_script_ok() {
    let matches = args(Some("l"), &[], &[], &[]);
    assert!(get_scripts_files(&matches).is_ok());
}

#[test]
fn test_e_script_ok() {
    let matches = args(None, &[(1, "l")], &[], &[]);
    assert!(get_scripts_files(&matches).is_ok());
}

#[test]
fn test_f_script_ok() {
    let matches = args(None, &[], &[(1, "/dev/null")], &[]);
    assert!(get_scripts_files(&matches).is_ok());
}

#[test]
fn test_expression_and_file_order() {
    // a -f before an -e: argument order decides
    let matches = args(None, &[(3, "s/a/b/")], &[(1, "first.sed")], &[]);
    let (scripts, _) = get_scripts_files(&matches).expect("Should succeed");
    assert_eq!(
        scripts,
        vec![
            ScriptValue::PathVal("first.sed".to_string()),
            ScriptValue::StringVal("s/a/b/".to_string()),
        ]
    );
}
