use vault::dir_ops::{
    count_files, decrypt_dir_order, decrypt_file_order, encrypt_order, encrypted_dir_name,
    has_encrypted_files, order_by_depth, WalkEntry,
};
use vault::error::VaultError;
use vault::file_ops::{apply_spans, plan_decrypt_file, plan_encrypt_file};
use vault::metadata::{FileMetadata, MAX_TRAILER_LEN};
use vault::name_encrypt::{decrypt_dir_name, encrypt_dir_name};
use vault::validate::EntryKind;
use std::collections::BTreeMap;

fn walk_entry(path: &str, depth: usize, kind: EntryKind) -> WalkEntry {
    WalkEntry {
        path: path.to_string(),
        depth,
        kind,
        is_root: false,
        is_exe: false,
        encrypted: false,
        name: path.rsplit('/').next().map(|s| s.to_string()),
    }
}

/// The tree of the directory tests: a root with a file and two
/// subdirectories holding one file each, in walk order.
fn sample_tree() -> Vec<WalkEntry> {
    let mut root = walk_entry("t", 1, EntryKind::Dir);
    root.is_root = true;
    vec![
        root,
        walk_entry("t/file1.txt", 2, EntryKind::File),
        walk_entry("t/子目录1", 2, EntryKind::Dir),
        walk_entry("t/子目录1/file2.txt", 3, EntryKind::File),
        walk_entry("t/子目录2", 2, EntryKind::Dir),
        walk_entry("t/子目录2/file3.txt", 3, EntryKind::File),
    ]
}

#[test]
fn test_count_files() {
    assert_eq!(count_files(&sample_tree()), 3);
    let mut tree = sample_tree();
    tree[1].is_exe = true;
    assert_eq!(count_files(&tree), 2);
}

#[test]
fn test_has_encrypted_files_false() {
    let mut tree = sample_tree();
    assert!(!has_encrypted_files(&tree));
    tree[3].encrypted = true;
    assert!(has_encrypted_files(&tree));
}

#[test]
fn encryption_order_is_deepest_first_and_stable() {
    let (files, dirs) = encrypt_order(&sample_tree());
    assert_eq!(files, vec![3, 5, 1]);
    assert_eq!(dirs, vec![2, 4]);
}

#[test]
fn encryption_skips_encrypted_files_the_program_and_the_root() {
    let mut tree = sample_tree();
    tree[3].encrypted = true;
    tree[1].is_exe = true;
    let (files, dirs) = encrypt_order(&tree);
    assert_eq!(files, vec![5]);
    assert_eq!(dirs, vec![2, 4]);
}

#[test]
fn decryption_renames_dirs_deepest_first_then_decrypts_encrypted_files() {
    let mut tree = sample_tree();
    tree.push(walk_entry("t/子目录1/deep", 3, EntryKind::Dir));
    assert_eq!(decrypt_dir_order(&tree), vec![6, 2, 4]);
    tree[1].encrypted = true;
    tree[5].encrypted = true;
    tree[3].encrypted = true;
    tree[3].is_exe = true;
    assert_eq!(decrypt_file_order(&tree), vec![1, 5]);
}

#[test]
fn order_by_depth_both_ways() {
    let depths = vec![2, 5, 2, 0, 5, 3];
    let all = vec![true; 6];
    assert_eq!(order_by_depth(&depths, &all, true), vec![1, 4, 5, 0, 2, 3]);
    assert_eq!(order_by_depth(&depths, &all, false), vec![3, 0, 2, 5, 1, 4]);
    let some = vec![true, false, true, true, true, false];
    assert_eq!(order_by_depth(&depths, &some, true), vec![4, 0, 2, 3]);
    assert!(order_by_depth(&vec![], &vec![], true).is_empty());
    assert!(order_by_depth(&depths, &vec![false; 6], false).is_empty());
}

#[test]
fn directory_names_are_encrypted_and_decrypt_back() {
    let new_name = encrypted_dir_name(b"password", &Some("子目录1".to_string())).unwrap();
    assert_eq!(new_name, encrypt_dir_name(b"password", "子目录1"));
    assert!(!new_name.contains('.'));
    assert_eq!(decrypt_dir_name(b"password", &new_name).unwrap(), "子目录1");
    match encrypted_dir_name(b"password", &None) {
        Err(VaultError::Io(m)) => assert_eq!(m, "no dirname"),
        _ => panic!("a directory without a name must be an error"),
    }
}

/// A directory tree held in memory: each path maps to a file's bytes, or
/// to `None` for a directory.
type Tree = BTreeMap<String, Option<Vec<u8>>>;

fn last_bytes(data: &[u8]) -> &[u8] {
    &data[data.len() - data.len().min(MAX_TRAILER_LEN as usize)..]
}

fn parent(path: &str) -> &str {
    &path[..path.rfind('/').unwrap()]
}

/// The entries of the tree in walk order (parents before children).
fn walk(tree: &Tree, root: &str) -> Vec<WalkEntry> {
    tree.iter()
        .map(|(path, node)| {
            let kind = if node.is_some() { EntryKind::File } else { EntryKind::Dir };
            let mut e = walk_entry(path, path.split('/').count(), kind);
            e.is_root = path == root;
            e.encrypted = match node {
                Some(data) => FileMetadata::detect(last_bytes(data)).is_some(),
                None => false,
            };
            e
        })
        .collect()
}

/// Moves an entry and everything below it; fails when it is missing.
fn rename(tree: &mut Tree, from: &str, to: &str) -> Result<(), VaultError> {
    if !tree.contains_key(from) {
        return Err(VaultError::Io(format!("not found: {}", from)));
    }
    let below = format!("{}/", from);
    let moved: Vec<String> = tree.keys().filter(|k| *k == from || k.starts_with(&below)).cloned().collect();
    for key in moved {
        let node = tree.remove(&key).unwrap();
        tree.insert(format!("{}{}", to, &key[from.len()..]), node);
    }
    Ok(())
}

fn encrypt_tree(tree: &mut Tree, root: &str, password: &[u8]) -> Result<usize, VaultError> {
    let entries = walk(tree, root);
    let (files, dirs) = encrypt_order(&entries);
    for &i in &files {
        let e = &entries[i];
        let content = tree[&e.path].clone().unwrap();
        let name = e.name.clone().unwrap();
        let plan = plan_encrypt_file(name, content.len() as u64, 0, password);
        let mut data = content;
        apply_spans(&mut data, &plan.spans, &plan.key, &plan.metadata.nonce);
        data.extend_from_slice(&plan.trailer);
        tree.insert(e.path.clone(), Some(data));
        rename(tree, &e.path, &format!("{}/{}", parent(&e.path), plan.enc_name))?;
    }
    for &i in &dirs {
        let e = &entries[i];
        let new_name = encrypted_dir_name(password, &e.name)?;
        rename(tree, &e.path, &format!("{}/{}", parent(&e.path), new_name))?;
    }
    Ok(files.len() + dirs.len())
}

fn decrypt_tree(tree: &mut Tree, root: &str, password: &[u8]) -> Result<usize, VaultError> {
    let mut processed = 0;
    let entries = walk(tree, root);
    for i in decrypt_dir_order(&entries) {
        let e = &entries[i];
        if let Some(orig) = e.name.as_ref().and_then(|n| decrypt_dir_name(password, n)) {
            rename(tree, &e.path, &format!("{}/{}", parent(&e.path), orig))?;
            processed += 1;
        }
    }
    let entries = walk(tree, root);
    for i in decrypt_file_order(&entries) {
        let e = &entries[i];
        let data = tree[&e.path].clone().unwrap();
        let plan = plan_decrypt_file(&e.path, last_bytes(&data), data.len() as u64, password)?;
        let mut out = data;
        apply_spans(&mut out, &plan.spans, &plan.key, &plan.metadata.nonce);
        out.resize(plan.final_len as usize, 0);
        tree.insert(e.path.clone(), Some(out));
        rename(tree, &e.path, &format!("{}/{}", parent(&e.path), plan.metadata.orig_name))?;
        processed += 1;
    }
    Ok(processed)
}

#[test]
fn test_encrypt_decrypt_directory() {
    let mut tree = Tree::new();
    tree.insert("t".to_string(), None);
    tree.insert("t/子目录1".to_string(), None);
    tree.insert("t/子目录2".to_string(), None);
    tree.insert("t/file1.txt".to_string(), Some(b"content1".to_vec()));
    tree.insert("t/子目录1/file2.txt".to_string(), Some(b"content2".to_vec()));
    tree.insert("t/子目录2/file3.txt".to_string(), Some(b"content3".to_vec()));

    assert!(tree.contains_key("t/file1.txt"));
    assert!(tree.contains_key("t/子目录1/file2.txt"));

    assert_eq!(encrypt_tree(&mut tree, "t", b"password").unwrap(), 5);

    assert!(!tree.contains_key("t/file1.txt"));
    assert!(!tree.contains_key("t/子目录1"));
    assert!(has_encrypted_files(&walk(&tree, "t")));

    assert_eq!(decrypt_tree(&mut tree, "t", b"password").unwrap(), 5);

    assert_eq!(tree["t/file1.txt"], Some(b"content1".to_vec()));
    assert_eq!(tree["t/子目录1/file2.txt"], Some(b"content2".to_vec()));
    assert_eq!(tree["t/子目录2/file3.txt"], Some(b"content3".to_vec()));
    assert_eq!(tree.len(), 6);
}

#[test]
fn nested_encrypted_directories_are_restored() {
    let mut tree = Tree::new();
    tree.insert("t".to_string(), None);
    tree.insert("t/a".to_string(), None);
    tree.insert("t/a/b".to_string(), None);
    tree.insert("t/a/b/f.txt".to_string(), Some(b"x".to_vec()));
    tree.insert("t/a/b/c".to_string(), None);
    tree.insert("t/a/b/c/g.txt".to_string(), Some(b"yy".to_vec()));
    let before: Vec<String> = tree.keys().cloned().collect();
    assert_eq!(encrypt_tree(&mut tree, "t", b"pw").unwrap(), 5);
    assert!(!tree.contains_key("t/a"));
    assert_eq!(decrypt_tree(&mut tree, "t", b"pw").unwrap(), 5);
    let after: Vec<String> = tree.keys().cloned().collect();
    assert_eq!(after, before);
    assert_eq!(tree["t/a/b/f.txt"], Some(b"x".to_vec()));
    assert_eq!(tree["t/a/b/c/g.txt"], Some(b"yy".to_vec()));
}
