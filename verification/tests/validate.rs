use vault::validate::{validate_directory, validate_file, EntryFacts, EntryKind, FileFacts};

fn facts(path: &str, exists: bool, encrypted: bool, writable: bool, name: Option<&str>) -> FileFacts {
    FileFacts {
        path: path.to_string(),
        exists,
        encrypted,
        writable,
        name: name.map(|n| n.to_string()),
    }
}

fn entry(path: &str, kind: EntryKind, name: &str) -> EntryFacts {
    EntryFacts {
        path: path.to_string(),
        kind,
        is_root: false,
        is_exe: false,
        encrypted: false,
        writable: true,
        name: Some(name.to_string()),
    }
}

#[test]
fn test_validate_file_nonexistent() {
    let issues = validate_file(&facts("/nonexistent/file.txt", false, false, false, Some("file.txt")));
    assert!(issues.iter().any(|i| i.issue.contains("不存在")));
    assert_eq!(issues.len(), 1);
}

#[test]
fn test_validate_file_ok() {
    assert!(validate_file(&facts("d/test.txt", true, false, true, Some("test.txt"))).is_empty());
}

#[test]
fn encrypted_file_is_reported_alone() {
    let long = "x".repeat(200);
    let issues = validate_file(&facts("p", true, true, false, Some(&long)));
    assert_eq!(issues.len(), 1);
    assert_eq!(issues[0].issue, "文件已加密");
}

#[test]
fn locked_file_with_long_name_gives_two_issues() {
    let long = "x".repeat(200);
    let issues = validate_file(&facts("p", true, false, false, Some(&long)));
    assert_eq!(issues.len(), 2);
    assert_eq!(issues[0].issue, "文件被占用或无法写入");
    assert_eq!(issues[1].issue, "加密后文件名过长 (200 字节)");
    assert_eq!(issues[1].path, "p");
}

#[test]
fn test_validate_clean_directory() {
    let mut root = entry("dir", EntryKind::Dir, "dir");
    root.is_root = true;
    let entries = vec![
        root,
        entry("dir/file.txt", EntryKind::File, "file.txt"),
        entry("dir/subdir", EntryKind::Dir, "subdir"),
        entry("dir/subdir/file2.txt", EntryKind::File, "file2.txt"),
    ];
    assert!(validate_directory(&entries).is_empty());
}

#[test]
fn directory_issues_in_walk_order() {
    let long_dir = "目".repeat(41);
    let mut enc = entry("d/a.dat", EntryKind::File, "a.dat");
    enc.encrypted = true;
    let mut locked = entry("d/b.txt", EntryKind::File, "b.txt");
    locked.writable = false;
    let mut exe = entry("d/vault.exe", EntryKind::File, "vault.exe");
    exe.is_exe = true;
    exe.encrypted = true;
    let mut root = entry("d", EntryKind::Dir, &"r".repeat(300));
    root.is_root = true;
    let entries = vec![root, enc, locked, exe, entry("d/long", EntryKind::Dir, &long_dir)];
    let issues = validate_directory(&entries);
    let texts: Vec<&str> = issues.iter().map(|i| i.issue.as_str()).collect();
    assert_eq!(texts, vec!["文件已加密", "文件被占用或无法写入", "加密后目录名过长 (123 字节)"]);
    assert!(issues.iter().any(|i| i.issue.contains("已加密")));
    assert_eq!(issues[2].path, "d/long");
}

#[test]
fn test_validate_already_encrypted() {
    let mut root = entry("dir", EntryKind::Dir, "dir");
    root.is_root = true;
    let mut enc = entry("dir/a1b2.dat", EntryKind::File, "a1b2.dat");
    enc.encrypted = true;
    let issues = validate_directory(&vec![root, enc]);
    assert!(issues.iter().any(|i| i.issue.contains("已加密")));
}
