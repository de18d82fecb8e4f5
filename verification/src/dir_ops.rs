//! Decisions of directory encryption and decryption: which entries of a
//! walked tree are processed, in which order, and under which names. The
//! caller walks the tree and performs the encryption and the renames.

use crate::crypto::KEYSTREAM_LIMIT;
use crate::error::VaultError;
use crate::name_encrypt::{encrypt_dir_name, spec_encrypt_dir_name};
use crate::validate::EntryKind;
use vstd::prelude::*;
use vstd::utf8::*;

verus! {

/// One entry of a walked directory tree.
pub struct WalkEntry {
    /// The path, as display text.
    pub path: String,
    /// The number of components of the path.
    pub depth: usize,
    pub kind: EntryKind,
    /// The entry is the tree's root.
    pub is_root: bool,
    /// The entry is the running program.
    pub is_exe: bool,
    /// For a file: a metadata trailer was detected at its end.
    pub encrypted: bool,
    /// The entry's name, if the path has one.
    pub name: Option<String>,
}

/// `x` comes before `y`: deeper first (or shallower first), and in walk
/// order among entries of equal depth.
pub open spec fn ordered_before(depths: Seq<usize>, deepest_first: bool, x: int, y: int) -> bool {
    if deepest_first {
        depths[x] > depths[y] || (depths[x] == depths[y] && x < y)
    } else {
        depths[x] < depths[y] || (depths[x] == depths[y] && x < y)
    }
}

/// `order` lists exactly the selected indices, each once, sorted by depth
/// (deepest or shallowest first) and stably, i.e. by index within a depth.
pub open spec fn is_depth_order(order: Seq<usize>, depths: Seq<usize>, selected: Seq<bool>, deepest_first: bool) -> bool {
    &&& forall|k: int| 0 <= k < order.len() ==> #[trigger] order[k] < depths.len() && selected[order[k] as int]
    &&& forall|i: int| 0 <= i < depths.len() && selected[i] ==> #[trigger] order.contains(i as usize)
    &&& forall|a: int, b: int|
        0 <= a < b < order.len() ==> ordered_before(depths, deepest_first, #[trigger] order[a] as int, #[trigger] order[b] as int)
}

/// The level at which index `x` is collected: its depth counted from the
/// processing end.
pub open spec fn level_of(depths: Seq<usize>, max: int, deepest_first: bool, x: int) -> int {
    if deepest_first {
        max - depths[x]
    } else {
        depths[x] as int
    }
}

/// The selected indices in depth order, deepest or shallowest first,
/// keeping walk order among entries of equal depth.
pub fn order_by_depth(depths: &Vec<usize>, selected: &Vec<bool>, deepest_first: bool) -> (order: Vec<usize>)
    requires
        depths@.len() == selected@.len(),
    ensures
        is_depth_order(order@, depths@, selected@, deepest_first),
{
    let n = depths.len();
    let mut max: usize = 0;
    let mut i: usize = 0;
    while i < n
        invariant
            n == depths@.len(),
            0 <= i <= n,
            forall|j: int| 0 <= j < i ==> depths@[j] <= max,
        decreases n - i,
    {
        if depths[i] > max {
            max = depths[i];
        }
        i = i + 1;
    }
    let ghost dd = depths@;
    let ghost sel = selected@;
    let mut order: Vec<usize> = Vec::new();
    let mut r: usize = 0;
    let mut more = true;
    let ghost mut lv: int = 0;
    while more
        invariant
            n == dd.len(),
            n == sel.len(),
            dd == depths@,
            sel == selected@,
            forall|j: int| 0 <= j < n ==> dd[j] <= max,
            r <= max,
            more ==> lv == r,
            !more ==> lv == max + 1,
            forall|k: int|
                0 <= k < order@.len() ==> #[trigger] order@[k] < n && sel[order@[k] as int]
                    && level_of(dd, max as int, deepest_first, order@[k] as int) < lv,
            forall|j: int|
                0 <= j < n && sel[j] && level_of(dd, max as int, deepest_first, j) < lv
                    ==> #[trigger] order@.contains(j as usize),
            forall|a: int, b: int|
                0 <= a < b < order@.len() ==> ordered_before(dd, deepest_first, #[trigger] order@[a] as int, #[trigger] order@[b] as int),
        decreases max - r + (if more { 1int } else { 0int }),
    {
        let d: usize = if deepest_first { max - r } else { r };
        let mut i: usize = 0;
        while i < n
            invariant
                n == dd.len(),
                n == sel.len(),
                dd == depths@,
                sel == selected@,
                forall|j: int| 0 <= j < n ==> dd[j] <= max,
                r <= max,
                lv == r,
                d == (if deepest_first { max - r } else { r as int }),
                0 <= i <= n,
                forall|k: int|
                    0 <= k < order@.len() ==> #[trigger] order@[k] < n && sel[order@[k] as int] && (
                    level_of(dd, max as int, deepest_first, order@[k] as int) < lv || (
                    dd[order@[k] as int] == d && order@[k] < i)),
                forall|j: int|
                    0 <= j < n && sel[j] && level_of(dd, max as int, deepest_first, j) < lv
                        ==> #[trigger] order@.contains(j as usize),
                forall|j: int| 0 <= j < i && sel[j] && dd[j] == d ==> #[trigger] order@.contains(j as usize),
                forall|a: int, b: int|
                    0 <= a < b < order@.len() ==> ordered_before(dd, deepest_first, #[trigger] order@[a] as int, #[trigger] order@[b] as int),
            decreases n - i,
        {
            if selected[i] && depths[i] == d {
                let ghost old_order = order@;
                order.push(i);
                assert forall|j: int|
                    0 <= j < n && sel[j] && level_of(dd, max as int, deepest_first, j) < lv
                    implies #[trigger] order@.contains(j as usize) by {
                    assert(old_order.contains(j as usize));
                    let k = choose|k: int| 0 <= k < old_order.len() && old_order[k] == j as usize;
                    assert(order@[k] == j as usize);
                }
                assert forall|j: int| 0 <= j < i + 1 && sel[j] && dd[j] == d implies #[trigger] order@.contains(j as usize) by {
                    if j < i {
                        assert(old_order.contains(j as usize));
                        let k = choose|k: int| 0 <= k < old_order.len() && old_order[k] == j as usize;
                        assert(order@[k] == j as usize);
                    } else {
                        assert(order@[old_order.len() as int] == j as usize);
                    }
                }
            }
            i = i + 1;
        }
        if r == max {
            more = false;
            proof {
                lv = max + 1;
            }
        } else {
            r = r + 1;
            proof {
                lv = r as int;
            }
        }
        assert forall|j: int|
            0 <= j < n && sel[j] && level_of(dd, max as int, deepest_first, j) < lv
            implies #[trigger] order@.contains(j as usize) by {
            if level_of(dd, max as int, deepest_first, j) >= lv - 1 {
                assert(dd[j] == d);
            }
        }
    }
    assert forall|i: int| 0 <= i < depths@.len() && selected@[i] implies #[trigger] order@.contains(i as usize) by {
        assert(level_of(dd, max as int, deepest_first, i) < lv);
    }
    order
}

/// The depths of the entries.
pub open spec fn entry_depths(entries: Seq<WalkEntry>) -> Seq<usize> {
    entries.map_values(|e: WalkEntry| e.depth)
}

/// A file that directory encryption encrypts: not the program itself, and
/// not encrypted yet.
pub open spec fn encrypts_file(e: WalkEntry) -> bool {
    e.kind == EntryKind::File && !e.is_exe && !e.encrypted
}

/// A directory that directory encryption renames: not the root (nor the
/// program).
pub open spec fn renames_dir_on_encrypt(e: WalkEntry) -> bool {
    e.kind == EntryKind::Dir && !e.is_exe && !e.is_root
}

/// A directory that directory decryption tries to rename: any but the root.
pub open spec fn renames_dir_on_decrypt(e: WalkEntry) -> bool {
    e.kind == EntryKind::Dir && !e.is_root
}

/// A file that directory decryption decrypts: an encrypted file other than
/// the program itself.
pub open spec fn decrypts_file(e: WalkEntry) -> bool {
    e.kind == EntryKind::File && !e.is_exe && e.encrypted
}

fn depths_of(entries: &Vec<WalkEntry>) -> (d: Vec<usize>)
    ensures
        d@ == entry_depths(entries@),
{
    let mut d: Vec<usize> = Vec::new();
    let mut i: usize = 0;
    while i < entries.len()
        invariant
            0 <= i <= entries@.len(),
            d@ == entry_depths(entries@.take(i as int)),
        decreases entries@.len() - i,
    {
        d.push(entries[i].depth);
        assert(entry_depths(entries@.take(i + 1)) =~= entry_depths(entries@.take(i as int)).push(entries@[i as int].depth));
        i = i + 1;
    }
    assert(entries@.take(entries@.len() as int) =~= entries@);
    d
}

/// Which entries a directory pass works on.
#[derive(Clone, Copy, Debug, PartialEq, Eq, Structural)]
pub enum Selection {
    EncryptFiles,
    EncryptDirs,
    DecryptDirs,
    DecryptFiles,
}

pub open spec fn selects(s: Selection, e: WalkEntry) -> bool {
    match s {
        Selection::EncryptFiles => encrypts_file(e),
        Selection::EncryptDirs => renames_dir_on_encrypt(e),
        Selection::DecryptDirs => renames_dir_on_decrypt(e),
        Selection::DecryptFiles => decrypts_file(e),
    }
}

pub open spec fn selection_flags(s: Selection, entries: Seq<WalkEntry>) -> Seq<bool> {
    entries.map_values(|e: WalkEntry| selects(s, e))
}

fn select(s: Selection, e: &WalkEntry) -> (b: bool)
    ensures
        b == selects(s, *e),
{
    match s {
        Selection::EncryptFiles => e.kind == EntryKind::File && !e.is_exe && !e.encrypted,
        Selection::EncryptDirs => e.kind == EntryKind::Dir && !e.is_exe && !e.is_root,
        Selection::DecryptDirs => e.kind == EntryKind::Dir && !e.is_root,
        Selection::DecryptFiles => e.kind == EntryKind::File && !e.is_exe && e.encrypted,
    }
}

fn flags_of(s: Selection, entries: &Vec<WalkEntry>) -> (f: Vec<bool>)
    ensures
        f@ == selection_flags(s, entries@),
{
    let mut f: Vec<bool> = Vec::new();
    let mut i: usize = 0;
    while i < entries.len()
        invariant
            0 <= i <= entries@.len(),
            f@ == selection_flags(s, entries@.take(i as int)),
        decreases entries@.len() - i,
    {
        let b = select(s, &entries[i]);
        f.push(b);
        assert(selection_flags(s, entries@.take(i + 1)) =~= selection_flags(s, entries@.take(i as int)).push(b));
        i = i + 1;
    }
    assert(entries@.take(entries@.len() as int) =~= entries@);
    f
}

/// The order in which a directory encryption processes entries: the files
/// to encrypt, then the directories to rename, each deepest first so that
/// renaming an entry never invalidates a path still to be processed.
pub fn encrypt_order(entries: &Vec<WalkEntry>) -> (r: (Vec<usize>, Vec<usize>))
    ensures
        is_depth_order(r.0@, entry_depths(entries@), selection_flags(Selection::EncryptFiles, entries@), true),
        is_depth_order(r.1@, entry_depths(entries@), selection_flags(Selection::EncryptDirs, entries@), true),
{
    let depths = depths_of(entries);
    let files = order_by_depth(&depths, &flags_of(Selection::EncryptFiles, entries), true);
    let dirs = order_by_depth(&depths, &flags_of(Selection::EncryptDirs, entries), true);
    (files, dirs)
}

/// The order in which a directory decryption renames directories:
/// deepest first, like encryption. The paths come from one walk taken
/// before any rename, so a directory must be renamed before any of its
/// ancestors, whose renaming would move it away from its listed path.
pub fn decrypt_dir_order(entries: &Vec<WalkEntry>) -> (r: Vec<usize>)
    ensures
        is_depth_order(r@, entry_depths(entries@), selection_flags(Selection::DecryptDirs, entries@), true),
{
    let depths = depths_of(entries);
    order_by_depth(&depths, &flags_of(Selection::DecryptDirs, entries), true)
}

/// The files a directory decryption decrypts, in walk order.
pub fn decrypt_file_order(entries: &Vec<WalkEntry>) -> (r: Vec<usize>)
    ensures
        forall|k: int| 0 <= k < r@.len() ==> #[trigger] r@[k] < entries@.len() && decrypts_file(entries@[r@[k] as int]),
        forall|i: int| 0 <= i < entries@.len() && decrypts_file(entries@[i]) ==> #[trigger] r@.contains(i as usize),
        forall|a: int, b: int| 0 <= a < b < r@.len() ==> #[trigger] r@[a] < #[trigger] r@[b],
{
    let mut r: Vec<usize> = Vec::new();
    let mut i: usize = 0;
    while i < entries.len()
        invariant
            0 <= i <= entries@.len(),
            forall|k: int| 0 <= k < r@.len() ==> #[trigger] r@[k] < i && decrypts_file(entries@[r@[k] as int]),
            forall|j: int| 0 <= j < i && decrypts_file(entries@[j]) ==> #[trigger] r@.contains(j as usize),
            forall|a: int, b: int| 0 <= a < b < r@.len() ==> #[trigger] r@[a] < #[trigger] r@[b],
        decreases entries@.len() - i,
    {
        if select(Selection::DecryptFiles, &entries[i]) {
            let ghost old_r = r@;
            r.push(i);
            assert forall|j: int| 0 <= j < i + 1 && decrypts_file(entries@[j]) implies #[trigger] r@.contains(j as usize) by {
                if j < i {
                    assert(old_r.contains(j as usize));
                    let k = choose|k: int| 0 <= k < old_r.len() && old_r[k] == j as usize;
                    assert(r@[k] == j as usize);
                } else {
                    assert(r@[old_r.len() as int] == j as usize);
                }
            }
        }
        i = i + 1;
    }
    r
}

/// The number of files in a walked tree, not counting the program itself.
pub open spec fn spec_count_files(entries: Seq<WalkEntry>) -> nat
    decreases entries.len(),
{
    if entries.len() == 0 {
        0
    } else {
        spec_count_files(entries.drop_last()) + (if entries.last().kind == EntryKind::File && !entries.last().is_exe { 1nat } else { 0nat })
    }
}

/// Counts the files of a walked tree, leaving out the program itself.
pub fn count_files(entries: &Vec<WalkEntry>) -> (c: usize)
    ensures
        c == spec_count_files(entries@),
{
    let mut c: usize = 0;
    let mut i: usize = 0;
    while i < entries.len()
        invariant
            0 <= i <= entries@.len(),
            c == spec_count_files(entries@.take(i as int)),
            c <= i,
        decreases entries@.len() - i,
    {
        assert(entries@.take(i + 1).drop_last() =~= entries@.take(i as int));
        if entries[i].kind == EntryKind::File && !entries[i].is_exe {
            c = c + 1;
        }
        i = i + 1;
    }
    assert(entries@.take(entries@.len() as int) =~= entries@);
    c
}

/// The entries counted as files: of kind `File`, and not the program.
pub open spec fn is_counted_file(e: WalkEntry) -> bool {
    e.kind == EntryKind::File && !e.is_exe
}

/// `count_files` counts every file of the tree but the program, encrypted
/// or not: it is the length of the walk filtered to those entries.
pub proof fn lemma_count_files_counts_all_files(entries: Seq<WalkEntry>)
    ensures
        spec_count_files(entries) == entries.filter(|e: WalkEntry| is_counted_file(e)).len(),
    decreases entries.len(),
{
    reveal(Seq::filter);
    if entries.len() > 0 {
        lemma_count_files_counts_all_files(entries.drop_last());
    }
}

/// Whether a file is encrypted does not change the count: two walks that
/// differ only in the entries' encrypted flags have the same count.
pub proof fn lemma_count_files_ignores_encryption(a: Seq<WalkEntry>, b: Seq<WalkEntry>)
    requires
        a.len() == b.len(),
        forall|i: int| 0 <= i < a.len() ==> (#[trigger] a[i]).kind == b[i].kind && a[i].is_exe == b[i].is_exe,
    ensures
        spec_count_files(a) == spec_count_files(b),
    decreases a.len(),
{
    if a.len() > 0 {
        assert forall|i: int| 0 <= i < a.drop_last().len() implies (#[trigger] a.drop_last()[i]).kind == b.drop_last()[i].kind
            && a.drop_last()[i].is_exe == b.drop_last()[i].is_exe by {
            assert(a.drop_last()[i] == a[i] && b.drop_last()[i] == b[i]);
        }
        lemma_count_files_ignores_encryption(a.drop_last(), b.drop_last());
        assert(a.last() == a[a.len() - 1]);
    }
}

/// Whether any file of a walked tree is encrypted.
pub fn has_encrypted_files(entries: &Vec<WalkEntry>) -> (b: bool)
    ensures
        b <==> exists|i: int| 0 <= i < entries@.len() && #[trigger] entries@[i].kind == EntryKind::File && entries@[i].encrypted,
{
    let mut i: usize = 0;
    while i < entries.len()
        invariant
            0 <= i <= entries@.len(),
            forall|j: int| 0 <= j < i ==> !(#[trigger] entries@[j].kind == EntryKind::File && entries@[j].encrypted),
        decreases entries@.len() - i,
    {
        if entries[i].kind == EntryKind::File && entries[i].encrypted {
            return true;
        }
        i = i + 1;
    }
    false
}

/// The new name of a directory during directory encryption; a directory
/// without a name is an error.
pub fn encrypted_dir_name(password: &[u8], name: &Option<String>) -> (r: Result<String, VaultError>)
    requires
        name matches Some(n) ==> encode_utf8(n@).len() <= KEYSTREAM_LIMIT,
    ensures
        name is None ==> r is Err,
        r matches Err(e) ==> e matches VaultError::Io(m) && m@ == "no dirname"@,
        name matches Some(n) ==> r matches Ok(s) && s@ == spec_encrypt_dir_name(password@, n@),
{
    match name {
        Some(n) => Ok(encrypt_dir_name(password, n.as_str())),
        None => Err(VaultError::Io(String::from_str("no dirname"))),
    }
}

} // verus!
