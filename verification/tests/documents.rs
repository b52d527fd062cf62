use bpftrace_ls::documents::{diagnostics_are_current, do_diagnostics, DocumentsData};

#[test]
fn get_gives_back_what_set_stored() {
    let mut docs = DocumentsData::new();
    assert!(docs.get("file:///a.bt").is_none());

    docs.set("file:///a.bt".to_string(), "BEGIN { }".to_string(), 1);
    docs.set("file:///b.bt".to_string(), "END { }".to_string(), 7);
    let a = docs.get("file:///a.bt").unwrap();
    assert_eq!((a.text.as_str(), a.version), ("BEGIN { }", 1));

    docs.set("file:///a.bt".to_string(), "BEGIN { exit(); }".to_string(), 2);
    let a = docs.get("file:///a.bt").unwrap();
    assert_eq!((a.text.as_str(), a.version), ("BEGIN { exit(); }", 2));
    let b = docs.get("file:///b.bt").unwrap();
    assert_eq!((b.text.as_str(), b.version), ("END { }", 7));
}

#[test]
fn diagnostics_only_for_known_non_blank_documents() {
    let mut docs = DocumentsData::new();
    assert_eq!(do_diagnostics(&docs, "file:///a.bt"), None);
    docs.set("file:///a.bt".to_string(), " \n\t ".to_string(), 3);
    assert_eq!(do_diagnostics(&docs, "file:///a.bt"), None);
    docs.set("file:///a.bt".to_string(), "kprobe:f { }".to_string(), 4);
    assert_eq!(do_diagnostics(&docs, "file:///a.bt"), Some(4));
}

#[test]
fn diagnostics_of_an_older_version_are_dropped() {
    let mut docs = DocumentsData::new();
    assert!(!diagnostics_are_current(&docs, "file:///a.bt", 1));
    docs.set("file:///a.bt".to_string(), "BEGIN { }".to_string(), 1);
    assert!(diagnostics_are_current(&docs, "file:///a.bt", 1));
    docs.set("file:///a.bt".to_string(), "BEGIN { x }".to_string(), 2);
    assert!(!diagnostics_are_current(&docs, "file:///a.bt", 1));
    assert!(diagnostics_are_current(&docs, "file:///a.bt", 2));
}
