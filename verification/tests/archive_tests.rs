use media_tagger::archive::{
    extract_named_entry, extract_prefix_from_zip, is_named, target_of, ArchiveError, ExtractedItem,
};
use std::io::Write;
use zip::write::SimpleFileOptions;

fn sample_archive() -> Vec<u8> {
    let mut writer = zip::ZipWriter::new(std::io::Cursor::new(Vec::new()));
    let options = SimpleFileOptions::default().unix_permissions(0o755);
    writer.add_directory("pfx/", options).unwrap();
    writer.add_directory("pfx/bin/", options).unwrap();
    writer.start_file("pfx/bin/tool.exe", options).unwrap();
    writer.write_all(b"binary content").unwrap();
    writer.start_file("pfx/readme.txt", options).unwrap();
    writer.write_all(b"read me").unwrap();
    writer.finish().unwrap().into_inner()
}

#[test]
fn unpacks_only_below_the_prefix() {
    let extraction = extract_prefix_from_zip(sample_archive(), "dest", "pfx/bin/");
    assert!(extraction.failure.is_none());
    assert_eq!(extraction.items.len(), 1);
    match &extraction.items[0] {
        ExtractedItem::File { path, parent, content, unix_mode } => {
            assert_eq!(path, "dest/tool.exe");
            assert_eq!(parent, "dest/");
            assert_eq!(content.as_slice(), b"binary content");
            assert_eq!(unix_mode.map(|m| m & 0o777), Some(0o755));
        }
        other => panic!("expected a file, found {:?}", other),
    }
}

#[test]
fn unpacks_directories_and_nested_files() {
    let extraction = extract_prefix_from_zip(sample_archive(), "out/", "pfx/");
    assert!(extraction.failure.is_none());
    let paths: Vec<String> = extraction
        .items
        .iter()
        .map(|item| match item {
            ExtractedItem::Directory { path } => format!("dir {}", path),
            ExtractedItem::File { path, .. } => format!("file {}", path),
        })
        .collect();
    assert_eq!(paths, vec!["dir out/bin/", "file out/bin/tool.exe", "file out/readme.txt"]);
}

#[test]
fn unpacks_nothing_for_a_foreign_prefix() {
    let extraction = extract_prefix_from_zip(sample_archive(), "dest", "other/");
    assert!(extraction.failure.is_none());
    assert!(extraction.items.is_empty());
}

#[test]
fn refuses_what_is_no_archive() {
    let extraction = extract_prefix_from_zip(b"not a zip archive".to_vec(), "dest", "pfx/");
    assert!(extraction.items.is_empty());
    assert!(matches!(extraction.failure, Some(ArchiveError::Open(_))));
}

#[test]
fn target_is_the_name_without_the_prefix() {
    assert_eq!(target_of("pfx/bin/tool.exe", "pfx/bin/").as_deref(), Some("tool.exe"));
    assert_eq!(target_of("pfx/bin/", "pfx/bin/"), None);
    assert_eq!(target_of("pfx/readme.txt", "pfx/bin/"), None);
    assert_eq!(target_of("a", ""), Some(String::from("a")));
}

#[test]
fn named_entry_is_read() {
    let found = extract_named_entry(sample_archive(), "pfx/readme.txt").unwrap();
    assert_eq!(found.as_deref(), Some(&b"read me"[..]));
    let found = extract_named_entry(sample_archive(), "pfx/bin/tool.exe").unwrap();
    assert_eq!(found.as_deref(), Some(&b"binary content"[..]));
}

#[test]
fn missing_entry_is_not_found() {
    assert_eq!(extract_named_entry(sample_archive(), "tool.exe").unwrap(), None);
    assert!(matches!(
        extract_named_entry(b"no archive".to_vec(), "tool.exe"),
        Err(ArchiveError::Open(_))
    ));
}

#[test]
fn backslashes_in_names_count_as_slashes() {
    assert!(is_named("pfx\\bin\\tool.exe", "pfx/bin/tool.exe"));
    assert!(is_named("pfx/bin/tool.exe", "pfx/bin/tool.exe"));
    assert!(!is_named("pfx/bin/tool.exe", "pfx\\bin\\tool.exe"));
    assert!(!is_named("pfx/bin/tool.ex", "pfx/bin/tool.exe"));
}

fn damaged_archive() -> Vec<u8> {
    let mut writer = zip::ZipWriter::new(std::io::Cursor::new(Vec::new()));
    let options =
        SimpleFileOptions::default().compression_method(zip::CompressionMethod::Stored);
    for (name, content) in [("a.txt", b"AAAAAAAA"), ("b.txt", b"BBBBBBBB"), ("c.txt", b"CCCCCCCC")] {
        writer.start_file(name, options).unwrap();
        writer.write_all(content).unwrap();
    }
    let mut bytes = writer.finish().unwrap().into_inner();
    let at = bytes.windows(8).position(|w| w == b"BBBBBBBB").unwrap();
    bytes[at] = b'X';
    bytes
}

#[test]
fn unpacking_stops_at_the_first_entry_that_cannot_be_read() {
    let extraction = extract_prefix_from_zip(damaged_archive(), "out", "");
    assert_eq!(extraction.items.len(), 1);
    match &extraction.items[0] {
        ExtractedItem::File { path, content, .. } => {
            assert_eq!(path, "out/a.txt");
            assert_eq!(content.as_slice(), b"AAAAAAAA");
        }
        other => panic!("expected a file, found {:?}", other),
    }
    match extraction.failure {
        Some(ArchiveError::Entry { index, .. }) => assert_eq!(index, 1),
        other => panic!("expected a failed entry, found {:?}", other),
    }
}

#[test]
fn damaged_entries_that_are_passed_over_do_no_harm() {
    let extraction = extract_prefix_from_zip(damaged_archive(), "out", "c");
    assert!(extraction.failure.is_none());
    assert_eq!(extraction.items.len(), 1);
    assert!(matches!(
        extract_named_entry(damaged_archive(), "b.txt"),
        Err(ArchiveError::Entry { index: 1, .. })
    ));
    assert_eq!(
        extract_named_entry(damaged_archive(), "c.txt").unwrap().as_deref(),
        Some(&b"CCCCCCCC"[..])
    );
}

fn archive_of(names: &[&str]) -> Vec<u8> {
    let mut writer = zip::ZipWriter::new(std::io::Cursor::new(Vec::new()));
    let options = SimpleFileOptions::default();
    for name in names {
        writer.start_file(*name, options).unwrap();
        writer.write_all(name.as_bytes()).unwrap();
    }
    writer.finish().unwrap().into_inner()
}

fn paths_of(items: &[ExtractedItem]) -> Vec<&str> {
    items
        .iter()
        .map(|item| match item {
            ExtractedItem::Directory { path } => path.as_str(),
            ExtractedItem::File { path, .. } => path.as_str(),
        })
        .collect()
}

#[test]
fn an_absolute_rest_is_not_unpacked() {
    let bytes = archive_of(&["pfx/bin/ok.txt", "pfx/bin//evil.txt", "pfx/bin/late.txt"]);
    let extraction = extract_prefix_from_zip(bytes, "dest", "pfx/bin/");
    assert_eq!(paths_of(&extraction.items), vec!["dest/ok.txt"]);
    match extraction.failure {
        Some(ArchiveError::Outside { index, name }) => {
            assert_eq!(index, 1);
            assert_eq!(name, "pfx/bin//evil.txt");
        }
        other => panic!("expected an entry outside, found {:?}", other),
    }
}

#[test]
fn a_rest_that_climbs_is_not_unpacked() {
    for name in ["pfx/bin/../../evil.txt", "pfx/bin/..", "pfx/bin/a/../b", "pfx/bin/a/.."] {
        let extraction = extract_prefix_from_zip(archive_of(&[name]), "dest", "pfx/bin/");
        assert!(extraction.items.is_empty(), "{}", name);
        assert!(
            matches!(extraction.failure, Some(ArchiveError::Outside { index: 0, .. })),
            "{}",
            name
        );
    }
}

#[test]
fn dots_inside_names_do_not_climb() {
    let names = ["pfx/bin/..a", "pfx/bin/a..", "pfx/bin/.../x", "pfx/bin/a/./b", "pfx/bin/a..b/c"];
    let extraction = extract_prefix_from_zip(archive_of(&names), "dest", "pfx/bin/");
    assert!(extraction.failure.is_none());
    assert_eq!(
        paths_of(&extraction.items),
        vec!["dest/..a", "dest/a..", "dest/.../x", "dest/a/./b", "dest/a..b/c"]
    );
}

#[test]
fn entries_outside_the_prefix_may_hold_anything() {
    let bytes = archive_of(&["/etc/x", "../y", "pfx/bin/ok.txt"]);
    let extraction = extract_prefix_from_zip(bytes, "dest", "pfx/bin/");
    assert!(extraction.failure.is_none());
    assert_eq!(paths_of(&extraction.items), vec!["dest/ok.txt"]);
}
