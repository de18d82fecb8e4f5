//! Checks made before encrypting: files that are already encrypted or
//! cannot be written, and names whose encrypted form would be too long.
//! The caller gathers the facts about each file system entry.

use crate::name_encrypt::{
    lemma_name_limit_matches_encrypted_length, spec_encrypt_dir_name, spec_encrypt_file_name,
    spec_would_exceed_name_limit, would_exceed_name_limit, NAME_LIMIT,
};
use crate::text::{spec_decimal, usize_to_decimal};
use vstd::prelude::*;
use vstd::utf8::*;

verus! {

/// A problem found with one path.
#[derive(Debug, Clone)]
pub struct ValidationIssue {
    pub path: String,
    pub issue: String,
}

impl View for ValidationIssue {
    type V = (Seq<char>, Seq<char>);

    open spec fn view(&self) -> (Seq<char>, Seq<char>) {
        (self.path@, self.issue@)
    }
}

/// The views of a list of issues.
pub open spec fn issues_view(issues: Seq<ValidationIssue>) -> Seq<(Seq<char>, Seq<char>)> {
    issues.map_values(|i: ValidationIssue| i@)
}

/// What the file system says about a single file to be encrypted.
pub struct FileFacts {
    /// The path, as display text.
    pub path: String,
    pub exists: bool,
    /// A metadata trailer was detected at its end.
    pub encrypted: bool,
    /// It could be opened for writing.
    pub writable: bool,
    /// Its file name, if the path has one.
    pub name: Option<String>,
}

/// The kind of a directory entry.
#[derive(Clone, Copy, Debug, PartialEq, Eq, Structural)]
pub enum EntryKind {
    File,
    Dir,
    Other,
}

/// What the file system says about one entry of a directory tree.
pub struct EntryFacts {
    /// The path, as display text.
    pub path: String,
    pub kind: EntryKind,
    /// The entry is the tree's root.
    pub is_root: bool,
    /// The entry is the running program.
    pub is_exe: bool,
    /// A metadata trailer was detected at the file's end.
    pub encrypted: bool,
    /// The file could be opened for writing.
    pub writable: bool,
    /// The entry's name, if the path has one.
    pub name: Option<String>,
}

pub open spec fn issue_not_found() -> Seq<char> {
    "文件不存在"@
}

pub open spec fn issue_encrypted() -> Seq<char> {
    "文件已加密"@
}

pub open spec fn issue_locked() -> Seq<char> {
    "文件被占用或无法写入"@
}

/// The message for a name whose encrypted form is too long, with its
/// length in UTF-8 bytes.
pub open spec fn issue_too_long(name: Seq<char>, is_file: bool) -> Seq<char> {
    (if is_file {
        "加密后文件名过长 ("@
    } else {
        "加密后目录名过长 ("@
    }) + spec_decimal(encode_utf8(name).len()) + " 字节)"@
}

/// The issue for a too long name, if the name is too long.
pub open spec fn spec_name_issues(path: Seq<char>, name: Option<String>, is_file: bool) -> Seq<(Seq<char>, Seq<char>)> {
    match name {
        Some(n) => if spec_would_exceed_name_limit(encode_utf8(n@).len(), is_file) {
            seq![(path, issue_too_long(n@, is_file))]
        } else {
            seq![]
        },
        None => seq![],
    }
}

/// The issues `validate_file` reports: a missing file, or an encrypted
/// one, alone; else an unwritable file and a too long name.
pub open spec fn spec_file_issues(f: FileFacts) -> Seq<(Seq<char>, Seq<char>)> {
    if !f.exists {
        seq![(f.path@, issue_not_found())]
    } else if f.encrypted {
        seq![(f.path@, issue_encrypted())]
    } else {
        (if !f.writable {
            seq![(f.path@, issue_locked())]
        } else {
            seq![]
        }) + spec_name_issues(f.path@, f.name, true)
    }
}

/// The issues one directory entry contributes: nothing for the program
/// itself; for a file, that it is encrypted, else that it cannot be
/// written, else a too long name; for a directory other than the root, a
/// too long name.
pub open spec fn spec_entry_issues(e: EntryFacts) -> Seq<(Seq<char>, Seq<char>)> {
    if e.is_exe {
        seq![]
    } else if e.kind == EntryKind::File {
        if e.encrypted {
            seq![(e.path@, issue_encrypted())]
        } else if !e.writable {
            seq![(e.path@, issue_locked())]
        } else {
            spec_name_issues(e.path@, e.name, true)
        }
    } else if e.kind == EntryKind::Dir && !e.is_root {
        spec_name_issues(e.path@, e.name, false)
    } else {
        seq![]
    }
}

/// The issues of all entries, in order.
pub open spec fn spec_directory_issues(entries: Seq<EntryFacts>) -> Seq<(Seq<char>, Seq<char>)>
    decreases entries.len(),
{
    if entries.len() == 0 {
        seq![]
    } else {
        spec_directory_issues(entries.drop_last()) + spec_entry_issues(entries.last())
    }
}

fn issue(path: &String, text: &str) -> (i: ValidationIssue)
    ensures
        i@ == (path@, text@),
{
    ValidationIssue { path: path.clone(), issue: String::from_str(text) }
}

/// Adds the issue for a too long name, if the name is too long.
fn push_name_issue(issues: &mut Vec<ValidationIssue>, path: &String, name: &Option<String>, is_file: bool)
    ensures
        issues_view(final(issues)@) == issues_view(old(issues)@) + spec_name_issues(path@, *name, is_file),
{
    let ghost before = issues@;
    if let Some(n) = name {
        if would_exceed_name_limit(n.as_str(), is_file) {
            let len = usize_to_decimal(n.as_str().as_bytes().len());
            let head = if is_file {
                String::from_str("加密后文件名过长 (")
            } else {
                String::from_str("加密后目录名过长 (")
            };
            let text = head.concat(len.as_str()).concat(" 字节)");
            let item = ValidationIssue { path: path.clone(), issue: text };
            assert(item@ == (path@, issue_too_long(n@, is_file)));
            issues.push(item);
        }
    }
    assert(issues_view(issues@) =~= issues_view(before) + spec_name_issues(path@, *name, is_file));
}

/// The issues found with a single file about to be encrypted.
pub fn validate_file(facts: &FileFacts) -> (issues: Vec<ValidationIssue>)
    ensures
        issues_view(issues@) == spec_file_issues(*facts),
{
    let mut issues: Vec<ValidationIssue> = Vec::new();
    if !facts.exists {
        issues.push(issue(&facts.path, "文件不存在"));
        assert(issues_view(issues@) =~= spec_file_issues(*facts));
        return issues;
    }
    if facts.encrypted {
        issues.push(issue(&facts.path, "文件已加密"));
        assert(issues_view(issues@) =~= spec_file_issues(*facts));
        return issues;
    }
    if !facts.writable {
        issues.push(issue(&facts.path, "文件被占用或无法写入"));
    }
    assert(issues_view(issues@) =~= (if !facts.writable {
        seq![(facts.path@, issue_locked())]
    } else {
        seq![]
    }));
    push_name_issue(&mut issues, &facts.path, &facts.name, true);
    issues
}

/// Adds the issues of one directory entry.
fn push_entry_issues(issues: &mut Vec<ValidationIssue>, e: &EntryFacts)
    ensures
        issues_view(final(issues)@) == issues_view(old(issues)@) + spec_entry_issues(*e),
{
    let ghost before = issues@;
    if e.is_exe {
        assert(issues_view(issues@) =~= issues_view(before) + spec_entry_issues(*e));
        return;
    }
    match e.kind {
        EntryKind::File => {
            if e.encrypted {
                issues.push(issue(&e.path, "文件已加密"));
            } else if !e.writable {
                issues.push(issue(&e.path, "文件被占用或无法写入"));
            } else {
                push_name_issue(issues, &e.path, &e.name, true);
            }
        },
        EntryKind::Dir => {
            if !e.is_root {
                push_name_issue(issues, &e.path, &e.name, false);
            }
        },
        EntryKind::Other => {},
    }
    assert(issues_view(issues@) =~= issues_view(before) + spec_entry_issues(*e));
}

/// The issues found in a directory tree, entry by entry in walk order.
pub fn validate_directory(entries: &Vec<EntryFacts>) -> (issues: Vec<ValidationIssue>)
    ensures
        issues_view(issues@) == spec_directory_issues(entries@),
{
    let mut issues: Vec<ValidationIssue> = Vec::new();
    let mut i: usize = 0;
    while i < entries.len()
        invariant
            0 <= i <= entries@.len(),
            issues_view(issues@) == spec_directory_issues(entries@.take(i as int)),
        decreases entries@.len() - i,
    {
        push_entry_issues(&mut issues, &entries[i]);
        assert(entries@.take(i + 1).drop_last() =~= entries@.take(i as int));
        i = i + 1;
    }
    assert(entries@.take(entries@.len() as int) =~= entries@);
    issues
}

/// The text reported for a file or directory name whose encrypted form is
/// too long: the kind of name, and its length in UTF-8 bytes.
pub open spec fn too_long_text(name: Seq<char>, is_file: bool) -> Seq<char> {
    (if is_file {
        "加密后文件名过长 ("@
    } else {
        "加密后目录名过长 ("@
    }) + spec_decimal(encode_utf8(name).len()) + " 字节)"@
}

/// Every issue an entry contributes is among the directory's issues.
proof fn lemma_entry_issue_in_directory(entries: Seq<EntryFacts>, i: int, x: (Seq<char>, Seq<char>))
    requires
        0 <= i < entries.len(),
        spec_entry_issues(entries[i]).contains(x),
    ensures
        spec_directory_issues(entries).contains(x),
    decreases entries.len(),
{
    let prefix = spec_directory_issues(entries.drop_last());
    let last = spec_entry_issues(entries.last());
    if i == entries.len() - 1 {
        let k = choose|k: int| 0 <= k < last.len() && last[k] == x;
        assert((prefix + last)[prefix.len() + k] == x);
    } else {
        assert(entries.drop_last()[i] == entries[i]);
        lemma_entry_issue_in_directory(entries.drop_last(), i, x);
        let k = choose|k: int| 0 <= k < prefix.len() && prefix[k] == x;
        assert((prefix + last)[k] == x);
    }
}

/// Directory validation reports every writable, unencrypted file (other
/// than the program) whose encrypted name would be longer than the limit,
/// and every directory other than the root whose encrypted name would be.
pub proof fn lemma_directory_reports_long_names(entries: Seq<EntryFacts>, password: Seq<u8>, i: int)
    requires
        0 <= i < entries.len(),
        !entries[i].is_exe,
        entries[i].name is Some,
        entries[i].kind == EntryKind::File ==> !entries[i].encrypted && entries[i].writable
            && spec_encrypt_file_name(password, entries[i].name->0@).len() > NAME_LIMIT,
        entries[i].kind == EntryKind::Dir ==> !entries[i].is_root
            && spec_encrypt_dir_name(password, entries[i].name->0@).len() > NAME_LIMIT,
        entries[i].kind != EntryKind::Other,
    ensures
        spec_directory_issues(entries).contains(
            (entries[i].path@, too_long_text(entries[i].name->0@, entries[i].kind == EntryKind::File)),
        ),
{
    let e = entries[i];
    let n = e.name->0;
    lemma_name_limit_matches_encrypted_length(password, n@);
    let x = (e.path@, too_long_text(n@, e.kind == EntryKind::File));
    assert(spec_entry_issues(e) == seq![x]);
    assert(seq![x][0] == x);
    lemma_entry_issue_in_directory(entries, i, x);
}

/// For an existing, unencrypted file, validation reports a too long name
/// exactly when the file's encrypted name is longer than the limit, whether
/// or not the file can be written.
pub proof fn lemma_file_reports_long_name_exactly(f: FileFacts, password: Seq<u8>)
    requires
        f.exists,
        !f.encrypted,
        f.name is Some,
    ensures
        spec_file_issues(f).contains((f.path@, too_long_text(f.name->0@, true)))
            <==> spec_encrypt_file_name(password, f.name->0@).len() > NAME_LIMIT,
{
    let n = f.name->0;
    lemma_name_limit_matches_encrypted_length(password, n@);
    let x = (f.path@, too_long_text(n@, true));
    let issues = spec_file_issues(f);
    if spec_encrypt_file_name(password, n@).len() > NAME_LIMIT {
        assert(issues[issues.len() - 1] == x);
    } else {
        reveal_strlit("文件被占用或无法写入");
        reveal_strlit("加密后文件名过长 (");
        assert(issue_locked()[0] != too_long_text(n@, true)[0]);
        if issues.contains(x) {
            let k = choose|k: int| 0 <= k < issues.len() && issues[k] == x;
            assert(issues[k] == (f.path@, issue_locked()));
        }
    }
}

} // verus!
