use keepass_extract::export::{console_output, export_plan, ExportFile};
use keepass_extract::extract::{
    completion_status, extract, failure_status, ExtractError, Request, Status,
};
use keepass_extract::vault::{Entry, Field, FieldValue, Group};

fn plain(name: &str, value: &str) -> Field {
    Field { name: name.to_string(), value: FieldValue::Unprotected(value.to_string()) }
}

fn secret(name: &str, value: &str) -> Field {
    Field { name: name.to_string(), value: FieldValue::Protected(value.to_string()) }
}

/// A vault shaped like the test databases: a custom-field entry, two entries
/// sharing a title in different groups, and an entry with a file field.
fn vault() -> Group {
    Group {
        entries: vec![Entry {
            fields: vec![
                plain("Title", "test-extract"),
                plain("UserName", "test-dump-user"),
                secret("Password", "test-dump-password"),
                plain("URL", ""),
                plain("Notes", ""),
                plain(".env", "API_KEY=abc\n"),
                secret(".db_password.conf", "password=xyz\n"),
                plain("my-file.txt", "file body\n"),
            ],
        }],
        groups: vec![
            Group {
                entries: vec![
                    Entry { fields: vec![plain("Title", "same_name"), plain("UserName", "first")] },
                    Entry {
                        fields: vec![
                            plain("Title", "entry two"),
                            plain("file-test_one.txt", "debug_dump_of_entry\n"),
                        ],
                    },
                ],
                groups: vec![Group {
                    entries: vec![Entry {
                        fields: vec![plain("Title", "same_name"), plain("UserName", "second")],
                    }],
                    groups: vec![],
                }],
            },
        ],
    }
}

/// What one run decides: its exit code, the files it writes when a folder
/// is given, and the lines it prints otherwise.
struct Run {
    code: i32,
    files: Vec<ExportFile>,
    stdout: Vec<String>,
    stderr: Vec<String>,
    available: Vec<String>,
}

fn run(entry: &str, field: Option<&str>, folder: bool, exclude_defaults: bool) -> Run {
    let request = Request {
        entry: entry.to_string(),
        field: field.map(|f| f.to_string()),
        exclude_defaults,
    };
    match extract(&vault(), &request) {
        Err(err) => {
            let code = failure_status(&err).code();
            let available = match err {
                ExtractError::EntryNotFound { available } => available,
                ExtractError::FieldNotFound => vec![],
            };
            Run { code, files: vec![], stdout: vec![], stderr: vec![], available }
        }
        Ok(x) => {
            let code = completion_status(&x).code();
            if folder {
                Run { code, files: export_plan(&x.items), stdout: vec![], stderr: vec![], available: vec![] }
            } else {
                let out = console_output(&x.items, field.is_some());
                Run { code, files: vec![], stdout: out.stdout, stderr: out.stderr, available: vec![] }
            }
        }
    }
}

fn file<'a>(r: &'a Run, name: &str) -> Option<&'a ExportFile> {
    r.files.iter().find(|f| f.file_name == name)
}

#[test]
fn test_keepass_extract_flow() {
    let r = run("entry two", None, true, false);
    assert_eq!(r.code, 0);
    let f = file(&r, "file-test_one.txt").expect("Output file missing");
    assert!(f.contents.contains("debug_dump_of_entry"), "Content mismatch");
}

#[test]
fn test_database_file_not_found_exit_code() {
    assert_eq!(Status::DatabaseNotFound.code(), 51);
}

#[test]
fn test_61_entry_not_found_with_folder() {
    let r = run("non-existent-entry", None, true, false);
    assert_eq!(r.code, 61);
    assert!(r.stdout.is_empty());
    assert!(!r.available.is_empty());
    assert_eq!(r.files.len(), 0, "Folder should be empty on exit 61");
}

#[test]
fn test_62_duplicate_entry_exports_first_match() {
    let r = run("same_name", None, true, false);
    assert_eq!(r.code, 62);
    assert!(!r.files.is_empty(), "No files exported for duplicate entry");
    assert_eq!(file(&r, "UserName").map(|f| f.contents.as_str()), Some("first"));
}

#[test]
fn test_success_export_and_file_content_checks() {
    let r = run("test-extract", None, true, false);
    assert_eq!(r.code, 0);
    assert!(r.stdout.is_empty());
    assert!(r.stderr.is_empty());
    assert!(file(&r, ".env").is_some());
    assert!(file(&r, ".db_password.conf").is_some());
    assert!(file(&r, "UserName").is_some());
    assert!(file(&r, "Title").is_some());
}

#[test]
fn test_61_entry_not_found() {
    let r = run("non-existent-entry-name", None, false, false);
    assert_eq!(r.code, 61);
    assert!(r.stdout.is_empty());
}

#[test]
fn test_62_multiple_entries_found() {
    let r = run("same_name", None, false, false);
    assert_eq!(r.code, 62);
    assert!(r.stdout.is_empty());
    assert!(r.stderr.iter().any(|l| l.contains("UserName")));
}

#[test]
fn test_success_entry_found_and_printed() {
    let r = run("test-extract", None, false, false);
    assert_eq!(r.code, 0);
    for name in ["my-file.txt", ".db_password.conf", ".env"] {
        assert!(r.stderr.iter().any(|l| l.contains(name)), "{} not listed", name);
    }
}

#[test]
fn test_71_field_not_found_exits_cleanly() {
    let r = run("test-extract", Some("non-existent-field"), false, false);
    assert_eq!(r.code, 71);
    assert!(r.stdout.is_empty());
}

#[test]
fn test_success_specific_field_to_stdout() {
    let r = run("test-extract", Some("UserName"), false, false);
    assert_eq!(r.code, 0);
    assert!(r.stdout.iter().any(|l| l.contains("test-dump-user")));
    assert!(r.stderr.is_empty());
}

#[test]
fn test_default_regex_filters_standard_fields() {
    // The standard fields are left out with the exclude-defaults switch.
    let r = run("test-extract", None, true, true);
    assert_eq!(r.code, 0);
    assert!(file(&r, "UserName").is_none(), "UserName should have been filtered out");
    assert!(file(&r, "Password").is_none(), "Password should have been filtered out");
    assert!(file(&r, "Title").is_none(), "Title should have been filtered out");
    assert!(file(&r, ".env").is_some(), "Custom field .env should be present");
    assert!(file(&r, "my-file.txt").is_some(), "Custom field my-file.txt should be present");
}

#[test]
fn test_empty_regex_includes_all_fields() {
    let r = run("test-extract", None, true, false);
    assert_eq!(r.code, 0);
    assert!(file(&r, "UserName").is_some());
    assert!(file(&r, "Title").is_some());
    assert!(file(&r, ".env").is_some());
}

#[test]
fn protected_fields_are_exported_with_their_text() {
    let r = run("test-extract", None, true, false);
    assert_eq!(file(&r, "Password").map(|f| f.contents.as_str()), Some("test-dump-password"));
    assert_eq!(file(&r, ".db_password.conf").map(|f| f.contents.as_str()), Some("password=xyz\n"));
}
