use keepass_extract::export::{console_output, export_plan};
use keepass_extract::extract::{
    available_titles, completion_status, extract, failure_status, find_matches,
    is_default_field, select_fields, ExportItem, ExtractError, Request, Status, LISTING_LIMIT,
};
use keepass_extract::vault::{collect_all_entries, Entry, Field, FieldValue, Group};

fn plain(name: &str, value: &str) -> Field {
    Field { name: name.to_string(), value: FieldValue::Unprotected(value.to_string()) }
}

fn secret(name: &str, value: &str) -> Field {
    Field { name: name.to_string(), value: FieldValue::Protected(value.to_string()) }
}

fn titled(title: &str, extra: Vec<Field>) -> Entry {
    let mut fields = vec![plain("Title", title)];
    fields.extend(extra);
    Entry { fields }
}

fn sample_tree() -> Group {
    Group {
        entries: vec![titled("root-entry", vec![plain("UserName", "root-user")])],
        groups: vec![
            Group {
                entries: vec![
                    titled(
                        "test-extract",
                        vec![
                            plain("UserName", "test-dump-user"),
                            secret("Password", "s3cret"),
                            plain("URL", "https://example.org"),
                            plain(".env", "KEY=value\n"),
                            plain("my-file.txt", "debug_dump_of_entry"),
                            secret(".db_password.conf", "db-pass"),
                            plain("notes", "lowercase notes"),
                        ],
                    ),
                    titled("same_name", vec![plain("UserName", "first")]),
                ],
                groups: vec![Group {
                    entries: vec![titled("same_name", vec![plain("UserName", "second")])],
                    groups: vec![],
                }],
            },
            Group { entries: vec![Entry { fields: vec![plain("UserName", "untitled")] }], groups: vec![] },
        ],
    }
}

fn request(entry: &str, field: Option<&str>, exclude_defaults: bool) -> Request {
    Request {
        entry: entry.to_string(),
        field: field.map(|f| f.to_string()),
        exclude_defaults,
    }
}

fn pairs(items: &[ExportItem]) -> Vec<(String, String)> {
    items.iter().map(|i| (i.name.clone(), i.value.clone())).collect()
}

#[test]
fn collects_entries_depth_first() {
    let tree = sample_tree();
    let all = collect_all_entries(&tree);
    let titles: Vec<Option<&str>> = all.iter().map(|e| e.get_title()).collect();
    assert_eq!(
        titles,
        vec![Some("root-entry"), Some("test-extract"), Some("same_name"), Some("same_name"), None]
    );
}

#[test]
fn empty_tree_has_no_entries() {
    let tree = Group { entries: vec![], groups: vec![] };
    assert!(collect_all_entries(&tree).is_empty());
}

#[test]
fn field_lookup_exposes_protected_values() {
    let e = titled("t", vec![secret("Password", "hunter2"), plain("UserName", "u")]);
    assert_eq!(e.get("Password"), Some("hunter2"));
    assert_eq!(e.get("UserName"), Some("u"));
    assert_eq!(e.get("username"), None);
    assert_eq!(e.get_title(), Some("t"));
    assert_eq!(Entry { fields: vec![] }.get_title(), None);
}

#[test]
fn protected_and_plain_values_expose_their_text() {
    assert_eq!(FieldValue::Protected("x".to_string()).as_str(), "x");
    assert_eq!(FieldValue::Unprotected("y".to_string()).as_str(), "y");
}

#[test]
fn default_field_names_ignore_ascii_case() {
    for n in ["Title", "title", "USERNAME", "Password", "url", "Notes", "UUID", "uuid", "TOTP", "tags"] {
        assert!(is_default_field(n), "{} should be a standard field", n);
    }
    for n in [".env", "my-file.txt", "Titles", "User Name", ""] {
        assert!(!is_default_field(n), "{} should not be a standard field", n);
    }
}

#[test]
fn select_fields_with_and_without_exclusion() {
    let tree = sample_tree();
    let e = &tree.groups[0].entries[0];
    let all = pairs(&select_fields(e, false));
    assert_eq!(all.len(), e.fields.len());
    assert_eq!(all[0], ("Title".to_string(), "test-extract".to_string()));
    assert_eq!(all[2], ("Password".to_string(), "s3cret".to_string()));
    let kept = pairs(&select_fields(e, true));
    assert_eq!(
        kept,
        vec![
            (".env".to_string(), "KEY=value\n".to_string()),
            ("my-file.txt".to_string(), "debug_dump_of_entry".to_string()),
            (".db_password.conf".to_string(), "db-pass".to_string()),
        ]
    );
}

#[test]
fn find_matches_keeps_order() {
    let tree = sample_tree();
    let all = collect_all_entries(&tree);
    let found = find_matches(&all, "same_name");
    assert_eq!(found.len(), 2);
    assert_eq!(found[0].get("UserName"), Some("first"));
    assert_eq!(found[1].get("UserName"), Some("second"));
    assert!(find_matches(&all, "Same_Name").is_empty());
}

#[test]
fn available_titles_are_capped() {
    let entries: Vec<Entry> = (0..30).map(|i| titled(&format!("e{}", i), vec![])).collect();
    let mut with_untitled = entries;
    with_untitled.insert(1, Entry { fields: vec![] });
    let refs: Vec<&Entry> = with_untitled.iter().collect();
    let listed = available_titles(&refs, LISTING_LIMIT);
    assert_eq!(listed.len(), 25);
    assert_eq!(listed[0], "e0");
    assert_eq!(listed[1], "(No Title)");
    assert_eq!(listed[24], "e23");
    assert_eq!(available_titles(&refs[..3].to_vec(), 25).len(), 3);
}

#[test]
fn entry_not_found_lists_available_titles() {
    let tree = sample_tree();
    match extract(&tree, &request("non-existent-entry", None, false)) {
        Err(ExtractError::EntryNotFound { available }) => {
            assert_eq!(
                available,
                vec!["root-entry", "test-extract", "same_name", "same_name", "(No Title)"]
            );
            let status = failure_status(&ExtractError::EntryNotFound { available });
            assert_eq!(status.code(), 61);
        }
        _ => panic!("expected EntryNotFound"),
    }
}

#[test]
fn missing_field_is_reported() {
    let tree = sample_tree();
    match extract(&tree, &request("test-extract", Some("non-existent-field"), false)) {
        Err(ExtractError::FieldNotFound) => {
            assert_eq!(failure_status(&ExtractError::FieldNotFound).code(), 71);
        }
        _ => panic!("expected FieldNotFound"),
    }
}

#[test]
fn single_field_is_exported_with_its_text() {
    let tree = sample_tree();
    let x = match extract(&tree, &request("test-extract", Some("UserName"), false)) {
        Ok(x) => x,
        Err(_) => panic!("expected a field"),
    };
    assert_eq!(pairs(&x.items), vec![("UserName".to_string(), "test-dump-user".to_string())]);
    assert!(!x.has_duplicates);
    assert_eq!(completion_status(&x).code(), 0);
    let secret = match extract(&tree, &request("test-extract", Some("Password"), false)) {
        Ok(x) => x,
        Err(_) => panic!("expected a field"),
    };
    assert_eq!(pairs(&secret.items), vec![("Password".to_string(), "s3cret".to_string())]);
}

#[test]
fn duplicate_titles_export_the_first_match() {
    let tree = sample_tree();
    let x = match extract(&tree, &request("same_name", None, false)) {
        Ok(x) => x,
        Err(_) => panic!("expected an export"),
    };
    assert!(x.has_duplicates);
    assert!(pairs(&x.items).contains(&("UserName".to_string(), "first".to_string())));
    assert_eq!(completion_status(&x).code(), 62);
}

#[test]
fn default_filter_keeps_custom_fields_only() {
    let tree = sample_tree();
    let x = match extract(&tree, &request("test-extract", None, true)) {
        Ok(x) => x,
        Err(_) => panic!("expected an export"),
    };
    let names: Vec<String> = x.items.iter().map(|i| i.name.clone()).collect();
    assert_eq!(names, vec![".env", "my-file.txt", ".db_password.conf"]);
}

#[test]
fn export_plan_sanitizes_file_names() {
    let items = vec![
        ExportItem { name: "a/b".to_string(), value: "1".to_string() },
        ExportItem { name: ".env".to_string(), value: "2".to_string() },
    ];
    let files = export_plan(&items);
    assert_eq!(files.len(), 2);
    assert_eq!(files[0].file_name, "a_b");
    assert_eq!(files[0].contents, "1");
    assert_eq!(files[1].file_name, ".env");
}

#[test]
fn console_output_by_mode() {
    let items = vec![
        ExportItem { name: "UserName".to_string(), value: "u".to_string() },
        ExportItem { name: "URL".to_string(), value: "x".to_string() },
    ];
    let with_field = console_output(&items, true);
    assert_eq!(with_field.stdout, vec!["u", "x"]);
    assert!(with_field.stderr.is_empty());
    let names = console_output(&items, false);
    assert!(names.stdout.is_empty());
    assert_eq!(names.stderr, vec!["UserName", "URL"]);
}

#[test]
fn status_codes() {
    assert_eq!(Status::Success.code(), 0);
    assert_eq!(Status::DatabaseNotFound.code(), 51);
    assert_eq!(Status::EntryNotFound.code(), 61);
    assert_eq!(Status::DuplicateEntries.code(), 62);
    assert_eq!(Status::FieldNotFound.code(), 71);
}
