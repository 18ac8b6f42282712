use std::io::Write;

use unzipper::archive::extract_plan;
use unzipper::archive::ExtractError;
use unzipper::plan::plan_entries;
use unzipper::plan::Action;
use unzipper::plan::Entry;
use unzipper::plan::Planner;

fn build_zip(entries: &[(&str, Option<&[u8]>)]) -> Vec<u8> {
    let mut w = zip::ZipWriter::new(std::io::Cursor::new(Vec::new()));
    let options = zip::write::SimpleFileOptions::default();
    for (name, data) in entries {
        match data {
            None => w.add_directory(*name, options).unwrap(),
            Some(bytes) => {
                w.start_file(*name, options).unwrap();
                w.write_all(bytes).unwrap();
            }
        }
    }
    w.finish().unwrap().into_inner()
}

fn entry(name: &str, data: &[u8]) -> Entry {
    Entry {
        name: name.as_bytes().to_vec(),
        data: data.to_vec(),
    }
}

#[test]
fn plan_example_archive() {
    let content = b"exactly twenty bytes";
    assert_eq!(content.len(), 20);
    let bytes = build_zip(&[
        ("docs/", None),
        ("docs/readme.txt", Some(content)),
        ("empty/", None),
    ]);
    let acts = extract_plan(bytes).unwrap();
    assert_eq!(acts.len(), 3);
    match &acts[0] {
        Action::MakeDir { path } => assert_eq!(path, b"docs"),
        other => panic!("expected MakeDir, got {:?}", other),
    }
    match &acts[1] {
        Action::WriteFile {
            path,
            mkparent,
            data,
        } => {
            assert_eq!(path, b"docs/readme.txt");
            assert_eq!(data, content);
            assert!(mkparent.is_none());
        }
        other => panic!("expected WriteFile, got {:?}", other),
    }
    match &acts[2] {
        Action::MakeDir { path } => assert_eq!(path, b"empty"),
        other => panic!("expected MakeDir, got {:?}", other),
    }
}

#[test]
fn file_content_preserved() {
    let mut content = Vec::new();
    for i in 0..4096u32 {
        content.push((i % 251) as u8);
    }
    let bytes = build_zip(&[("blob.bin", Some(&content))]);
    let acts = extract_plan(bytes).unwrap();
    assert_eq!(acts.len(), 1);
    match &acts[0] {
        Action::WriteFile { path, data, .. } => {
            assert_eq!(path, b"blob.bin");
            assert_eq!(data, &content);
        }
        other => panic!("expected WriteFile, got {:?}", other),
    }
}

#[test]
fn bad_archive_rejected() {
    let r = extract_plan(b"this is not a zip archive".to_vec());
    assert_eq!(r.unwrap_err(), ExtractError::BadArchive);
}

#[test]
fn corrupt_entry_rejected() {
    let content = b"stored-bytes-to-corrupt";
    let mut w = zip::ZipWriter::new(std::io::Cursor::new(Vec::new()));
    let options = zip::write::SimpleFileOptions::default()
        .compression_method(zip::CompressionMethod::Stored);
    w.start_file("a.bin", options).unwrap();
    w.write_all(content).unwrap();
    let mut bytes = w.finish().unwrap().into_inner();
    let at = bytes
        .windows(content.len())
        .position(|win| win == content)
        .unwrap();
    bytes[at] ^= 0xff;
    let r = extract_plan(bytes);
    assert_eq!(r.unwrap_err(), ExtractError::BadEntry);
}

#[test]
fn empty_archive_plans_nothing() {
    let bytes = build_zip(&[]);
    let acts = extract_plan(bytes).unwrap();
    assert!(acts.is_empty());
}

#[test]
fn traversal_entry_skipped() {
    let entries = vec![entry("../evil.txt", b"x"), entry("ok.txt", b"fine")];
    let acts = plan_entries(&entries);
    assert_eq!(acts.len(), 2);
    assert!(matches!(acts[0], Action::Skip));
    match &acts[1] {
        Action::WriteFile { path, data, .. } => {
            assert_eq!(path, b"ok.txt");
            assert_eq!(data, b"fine");
        }
        other => panic!("expected WriteFile, got {:?}", other),
    }
}

#[test]
fn unresolvable_names_skipped() {
    let names = ["..", "../x", "a/../../b.txt", "..\\e", "\\..\\x", "/..", "a\0b.txt"];
    for name in names {
        let acts = plan_entries(&vec![entry(name, b"x")]);
        assert!(matches!(acts[0], Action::Skip), "name {:?}", name);
    }
}

#[test]
fn names_resolve_to_destinations() {
    let cases = [
        ("a.txt", "a.txt"),
        ("a/b.txt", "a/b.txt"),
        ("dots..ok/x..y", "dots..ok/x..y"),
        ("./a.txt", "a.txt"),
        ("/abs.txt", "abs.txt"),
        ("a/../b.txt", "b.txt"),
        ("a//b.txt", "a/b.txt"),
        ("a/./b.txt", "a/b.txt"),
        ("C:\\evil", "evil"),
        ("a\\b\\c.txt", "a/b/c.txt"),
    ];
    for (name, dest) in cases {
        let acts = plan_entries(&vec![entry(name, b"x")]);
        match &acts[0] {
            Action::WriteFile { path, .. } => {
                assert_eq!(path.as_slice(), dest.as_bytes(), "name {:?}", name)
            }
            other => panic!("expected WriteFile for {:?}, got {:?}", name, other),
        }
    }
}

#[test]
fn backslash_parent_resolved() {
    let entries = vec![entry("a\\b\\c.txt", b"x")];
    let acts = plan_entries(&entries);
    match &acts[0] {
        Action::WriteFile { mkparent, .. } => {
            assert_eq!(mkparent.as_deref(), Some(b"a/b".as_slice()))
        }
        other => panic!("expected WriteFile, got {:?}", other),
    }
}

#[test]
fn parent_created_once() {
    let entries = vec![entry("d/a.txt", b"1"), entry("d/b.txt", b"2")];
    let acts = plan_entries(&entries);
    match &acts[0] {
        Action::WriteFile { mkparent, .. } => {
            assert_eq!(mkparent.as_deref(), Some(b"d".as_slice()))
        }
        other => panic!("expected WriteFile, got {:?}", other),
    }
    match &acts[1] {
        Action::WriteFile { mkparent, .. } => assert!(mkparent.is_none()),
        other => panic!("expected WriteFile, got {:?}", other),
    }
}

#[test]
fn dir_entry_then_file_needs_no_parent() {
    let entries = vec![entry("docs/", b""), entry("docs/readme.txt", b"hello")];
    let acts = plan_entries(&entries);
    match &acts[0] {
        Action::MakeDir { path } => assert_eq!(path, b"docs"),
        other => panic!("expected MakeDir, got {:?}", other),
    }
    match &acts[1] {
        Action::WriteFile { mkparent, .. } => assert!(mkparent.is_none()),
        other => panic!("expected WriteFile, got {:?}", other),
    }
}

#[test]
fn nested_parent_requested() {
    let entries = vec![entry("a/b/c.txt", b"x")];
    let acts = plan_entries(&entries);
    match &acts[0] {
        Action::WriteFile { mkparent, .. } => {
            assert_eq!(mkparent.as_deref(), Some(b"a/b".as_slice()))
        }
        other => panic!("expected WriteFile, got {:?}", other),
    }
}

#[test]
fn planner_steps_match_plan_entries() {
    let entries = vec![
        entry("docs/", b""),
        entry("docs/a.txt", b"1"),
        entry("../evil", b"2"),
        entry("other/b.txt", b"3"),
    ];
    let mut planner = Planner::new();
    let stepped: Vec<Action> = entries.iter().map(|e| planner.plan_entry(e)).collect();
    let all = plan_entries(&entries);
    assert_eq!(format!("{:?}", stepped), format!("{:?}", all));
}
