//! A model of the renames a directory pass makes in a file tree, and the
//! law that decrypting a directory restores what encrypting it changed.
//!
//! Entry `i` of a walked tree has a name and a parent `parents[i]`: an
//! earlier entry, or `-1` for an entry directly below the root. A path is
//! the sequence of names from below the root down to the entry. Sibling
//! names are kept distinct, so a path leads to at most one entry.

use crate::crypto::KEYSTREAM_LIMIT;
use crate::dir_ops::{is_depth_order, ordered_before, selection_flags, Selection, WalkEntry};
use crate::validate::EntryKind;
use crate::file_ops::{file_tail, lemma_file_round_trip, spec_decrypt_image, spec_encrypt_image};
use crate::metadata::{round_trippable, spec_read_from_file, spec_to_bytes, MetadataModel, MAX_TRAILER_LEN};
use crate::name_encrypt::{
    lemma_dir_name_round_trip, lemma_encrypted_dir_name_is_hex, lemma_file_name_round_trip,
    spec_decrypt_dir_name, spec_encrypt_dir_name, spec_encrypt_file_name, FILE_EXT,
};
use vstd::prelude::*;
use vstd::utf8::*;

verus! {

/// Every entry's parent is an earlier entry, or the root.
pub open spec fn tree_wf(parents: Seq<int>) -> bool {
    forall|i: int| 0 <= i < parents.len() ==> -1 <= #[trigger] parents[i] < i
}

/// Entry `a` lies above entry `i`.
pub open spec fn is_ancestor(parents: Seq<int>, a: int, i: int) -> bool
    decreases i,
{
    if 0 <= i < parents.len() && 0 <= parents[i] < i {
        parents[i] == a || is_ancestor(parents, a, parents[i])
    } else {
        false
    }
}

/// The path of entry `i` below the root, when the entries carry `names`.
pub open spec fn node_path(parents: Seq<int>, names: Seq<Seq<char>>, i: int) -> Seq<Seq<char>>
    decreases i,
{
    if 0 <= i < parents.len() && 0 <= parents[i] < i {
        node_path(parents, names, parents[i]).push(names[i])
    } else {
        seq![names[i]]
    }
}

/// Different entries of the same directory.
pub open spec fn siblings(parents: Seq<int>, i: int, j: int) -> bool {
    i != j && parents[i] == parents[j]
}

/// Renaming entry `i`, found by the path `listed`, to `new`: the listed
/// path must still lead to the entry and no sibling may carry the new
/// name already; otherwise the rename fails.
pub open spec fn rename_step(
    parents: Seq<int>,
    names: Seq<Seq<char>>,
    listed: Seq<Seq<char>>,
    i: int,
    new: Seq<char>,
) -> Option<Seq<Seq<char>>> {
    if node_path(parents, names, i) == listed && forall|j: int|
        0 <= j < names.len() && #[trigger] siblings(parents, i, j) ==> names[j] != new {
        Some(names.update(i, new))
    } else {
        None
    }
}

/// A rename pass: the entries of `order` renamed one after the other, each
/// found by the path a walk listed for it (its path under the names
/// `listed`), to its new name (`None`: left alone). `None` when a rename
/// fails, which stops the pass.
pub open spec fn run_renames(
    parents: Seq<int>,
    listed: Seq<Seq<char>>,
    names: Seq<Seq<char>>,
    order: Seq<usize>,
    new_names: Seq<Option<Seq<char>>>,
) -> Option<Seq<Seq<char>>>
    decreases order.len(),
{
    if order.len() == 0 {
        Some(names)
    } else {
        let i = order[0] as int;
        match new_names[i] {
            None => run_renames(parents, listed, names, order.drop_first(), new_names),
            Some(new) => match rename_step(parents, names, node_path(parents, listed, i), i, new) {
                Some(next) => run_renames(parents, listed, next, order.drop_first(), new_names),
                None => None,
            },
        }
    }
}

/// The names after every entry of `order` that has a new name took it.
pub open spec fn renamed(names: Seq<Seq<char>>, order: Seq<usize>, new_names: Seq<Option<Seq<char>>>) -> Seq<Seq<char>> {
    Seq::new(
        names.len(),
        |i: int|
            if order.contains(i as usize) && new_names[i] is Some {
                new_names[i]->0
            } else {
                names[i]
            },
    )
}

/// Two namings agree on `i` and everything above it: `i` has the same path.
proof fn lemma_path_agree(parents: Seq<int>, a: Seq<Seq<char>>, b: Seq<Seq<char>>, i: int)
    requires
        tree_wf(parents),
        a.len() == parents.len(),
        b.len() == parents.len(),
        0 <= i < parents.len(),
        a[i] == b[i],
        forall|x: int| #[trigger] is_ancestor(parents, x, i) ==> a[x] == b[x],
    ensures
        node_path(parents, a, i) == node_path(parents, b, i),
    decreases i,
{
    let p = parents[i];
    if 0 <= p < i {
        assert(is_ancestor(parents, p, i));
        assert forall|x: int| #[trigger] is_ancestor(parents, x, p) implies a[x] == b[x] by {
            assert(is_ancestor(parents, x, i));
        }
        lemma_path_agree(parents, a, b, p);
    }
}

/// An entry lies below its ancestors: their depths are smaller.
proof fn lemma_ancestor_shallower(parents: Seq<int>, depths: Seq<usize>, x: int, i: int)
    requires
        tree_wf(parents),
        depths.len() == parents.len(),
        forall|j: int| 0 <= j < parents.len() && #[trigger] parents[j] >= 0 ==> depths[parents[j]] < depths[j],
        is_ancestor(parents, x, i),
    ensures
        0 <= x < i,
        depths[x] < depths[i],
    decreases i,
{
    let p = parents[i];
    if p != x {
        lemma_ancestor_shallower(parents, depths, x, p);
    }
}

/// Only directories have entries below them.
proof fn lemma_ancestor_is_dir(parents: Seq<int>, is_dir: Seq<bool>, x: int, i: int)
    requires
        tree_wf(parents),
        is_dir.len() == parents.len(),
        forall|j: int| 0 <= j < parents.len() && #[trigger] parents[j] >= 0 ==> is_dir[parents[j]],
        is_ancestor(parents, x, i),
    ensures
        is_dir[x],
    decreases i,
{
    let p = parents[i];
    assert(0 <= i < parents.len() && 0 <= p < i);
    assert(is_dir[parents[i]]);
    if p != x {
        lemma_ancestor_is_dir(parents, is_dir, x, p);
    }
}

/// A rename pass succeeds and renames every entry it should when no entry
/// is renamed before one below it, the listed paths are still valid for
/// every entry to rename, and no new name clashes with a sibling's name.
pub proof fn lemma_run_renames(
    parents: Seq<int>,
    listed: Seq<Seq<char>>,
    names: Seq<Seq<char>>,
    order: Seq<usize>,
    new_names: Seq<Option<Seq<char>>>,
)
    requires
        tree_wf(parents),
        parents.len() <= usize::MAX,
        listed.len() == parents.len(),
        names.len() == parents.len(),
        new_names.len() == parents.len(),
        forall|k: int| 0 <= k < order.len() ==> #[trigger] order[k] < parents.len(),
        forall|a: int, b: int| 0 <= a < b < order.len() ==> #[trigger] order[a] != #[trigger] order[b],
        forall|a: int, b: int|
            0 <= a < b < order.len() ==> !is_ancestor(parents, #[trigger] order[a] as int, #[trigger] order[b] as int),
        forall|k: int, x: int|
            0 <= k < order.len() && 0 <= x < parents.len() && (x == order[k] || is_ancestor(parents, x, #[trigger] order[k] as int))
                ==> #[trigger] names[x] == listed[x],
        forall|k: int, j: int|
            0 <= k < order.len() && 0 <= j < parents.len() && new_names[order[k] as int] is Some && siblings(parents, #[trigger] order[k] as int, j) ==> {
                &&& new_names[order[k] as int]->0 != #[trigger] names[j]
                &&& (order.contains(j as usize) && new_names[j] is Some ==> new_names[order[k] as int]->0 != new_names[j]->0)
            },
    ensures
        run_renames(parents, listed, names, order, new_names) == Some(renamed(names, order, new_names)),
    decreases order.len(),
{
    if order.len() == 0 {
        assert(renamed(names, order, new_names) =~= names);
    } else {
        let i = order[0] as int;
        let rest = order.drop_first();
        let next = match new_names[i] {
            Some(new) => names.update(i, new),
            None => names,
        };
        if new_names[i] is Some {
            assert forall|x: int| #[trigger] is_ancestor(parents, x, i) implies names[x] == listed[x] by {
                lemma_ancestor_bounds(parents, x, i);
            }
            lemma_path_agree(parents, names, listed, i);
            assert forall|j: int| 0 <= j < names.len() && #[trigger] siblings(parents, i, j) implies names[j]
                != new_names[i]->0 by {
                assert(order[0] as int == i);
            }
            assert(rename_step(parents, names, node_path(parents, listed, i), i, new_names[i]->0) == Some(next));
        }
        assert forall|k: int, x: int|
            0 <= k < rest.len() && 0 <= x < parents.len() && (x == rest[k] || is_ancestor(parents, x, #[trigger] rest[k] as int))
            implies #[trigger] next[x] == listed[x] by {
            assert(rest[k] == order[k + 1]);
            assert(order[0] != order[k + 1]);
            assert(!is_ancestor(parents, order[0] as int, order[k + 1] as int));
            assert(names[x] == listed[x]);
        }
        assert forall|k: int, j: int|
            0 <= k < rest.len() && 0 <= j < parents.len() && new_names[rest[k] as int] is Some && siblings(parents, #[trigger] rest[k] as int, j)
            implies {
                &&& new_names[rest[k] as int]->0 != #[trigger] next[j]
                &&& (rest.contains(j as usize) && new_names[j] is Some ==> new_names[rest[k] as int]->0 != new_names[j]->0)
            } by {
            assert(rest[k] == order[k + 1]);
            assert(names[j] == names[j]);
            if rest.contains(j as usize) {
                let m = choose|m: int| 0 <= m < rest.len() && rest[m] == j as usize;
                assert(order[m + 1] == j as usize);
                assert(order.contains(j as usize));
            }
            if j == i && new_names[i] is Some {
                assert(order.contains(j as usize)) by {
                    assert(order[0] == j as usize);
                }
            }
        }
        assert forall|a: int, b: int| 0 <= a < b < rest.len() implies #[trigger] rest[a] != #[trigger] rest[b] by {
            assert(rest[a] == order[a + 1] && rest[b] == order[b + 1]);
        }
        assert forall|a: int, b: int|
            0 <= a < b < rest.len() implies !is_ancestor(parents, #[trigger] rest[a] as int, #[trigger] rest[b] as int) by {
            assert(rest[a] == order[a + 1] && rest[b] == order[b + 1]);
        }
        assert forall|k: int| 0 <= k < rest.len() implies #[trigger] rest[k] < parents.len() by {
            assert(rest[k] == order[k + 1]);
        }
        lemma_run_renames(parents, listed, next, rest, new_names);
        assert forall|x: int| 0 <= x < names.len() implies #[trigger] renamed(next, rest, new_names)[x] == renamed(
            names,
            order,
            new_names,
        )[x] by {
            if x == i {
                if rest.contains(x as usize) {
                    let m = choose|m: int| 0 <= m < rest.len() && rest[m] == x as usize;
                    assert(order[m + 1] == order[0]);
                }
                assert(order[0] == x as usize);
            } else {
                if order.contains(x as usize) {
                    let m = choose|m: int| 0 <= m < order.len() && order[m] == x as usize;
                    assert(order[m] as int == x);
                    assert(m != 0);
                    assert(rest[m - 1] == x as usize);
                }
                if rest.contains(x as usize) {
                    let m = choose|m: int| 0 <= m < rest.len() && rest[m] == x as usize;
                    assert(order[m + 1] == x as usize);
                }
            }
        }
        assert(renamed(next, rest, new_names) =~= renamed(names, order, new_names));
    }
}

/// An ancestor is an earlier entry.
proof fn lemma_ancestor_bounds(parents: Seq<int>, x: int, i: int)
    requires
        tree_wf(parents),
        is_ancestor(parents, x, i),
    ensures
        0 <= x < i < parents.len(),
    decreases i,
{
    if parents[i] != x {
        lemma_ancestor_bounds(parents, x, parents[i]);
    }
}

/// In a deepest-first order no entry comes before one below it.
pub proof fn lemma_deepest_first_no_ancestor_first(
    parents: Seq<int>,
    depths: Seq<usize>,
    selected: Seq<bool>,
    order: Seq<usize>,
)
    requires
        tree_wf(parents),
        depths.len() == parents.len(),
        forall|j: int| 0 <= j < parents.len() && #[trigger] parents[j] >= 0 ==> depths[parents[j]] < depths[j],
        is_depth_order(order, depths, selected, true),
    ensures
        forall|a: int, b: int| 0 <= a < b < order.len() ==> #[trigger] order[a] != #[trigger] order[b],
        forall|a: int, b: int|
            0 <= a < b < order.len() ==> !is_ancestor(parents, #[trigger] order[a] as int, #[trigger] order[b] as int),
{
    assert forall|a: int, b: int| 0 <= a < b < order.len() implies !is_ancestor(
        parents,
        #[trigger] order[a] as int,
        #[trigger] order[b] as int,
    ) && order[a] != order[b] by {
        assert(ordered_before(depths, true, order[a] as int, order[b] as int));
        if is_ancestor(parents, order[a] as int, order[b] as int) {
            lemma_ancestor_shallower(parents, depths, order[a] as int, order[b] as int);
        }
    }
}

/// The selected entries of an order that renames exactly them.
proof fn lemma_renamed_selected(
    names: Seq<Seq<char>>,
    order: Seq<usize>,
    new_names: Seq<Option<Seq<char>>>,
    selected: Seq<bool>,
)
    requires
        names.len() <= usize::MAX,
        new_names.len() == names.len(),
        selected.len() == names.len(),
        forall|k: int| 0 <= k < order.len() ==> #[trigger] order[k] < names.len() && selected[order[k] as int],
        forall|i: int| 0 <= i < names.len() && selected[i] ==> #[trigger] order.contains(i as usize),
        forall|i: int| 0 <= i < names.len() && selected[i] ==> #[trigger] new_names[i] is Some,
    ensures
        renamed(names, order, new_names) == Seq::new(
            names.len(),
            |i: int| if selected[i] { new_names[i]->0 } else { names[i] },
        ),
{
    assert forall|i: int| 0 <= i < names.len() implies #[trigger] renamed(names, order, new_names)[i] == (if selected[i] {
        new_names[i]->0
    } else {
        names[i]
    }) by {
        if order.contains(i as usize) {
            let k = choose|k: int| 0 <= k < order.len() && order[k] == i as usize;
            assert(order[k] as int == i);
        }
    }
    assert(renamed(names, order, new_names) =~= Seq::new(
        names.len(),
        |i: int| if selected[i] { new_names[i]->0 } else { names[i] },
    ));
}

/// The encrypted name of a file (`is_dir` false) or directory.
pub open spec fn encrypted_name(password: Seq<u8>, name: Seq<char>, is_dir: bool) -> Seq<char> {
    if is_dir {
        spec_encrypt_dir_name(password, name)
    } else {
        spec_encrypt_file_name(password, name)
    }
}

/// Different names never encrypt to the same name, whether of files or
/// directories: a directory's is hex only, a file's ends with `.dat`.
pub proof fn lemma_encrypted_names_distinct(password: Seq<u8>, a: Seq<char>, a_dir: bool, b: Seq<char>, b_dir: bool)
    requires
        encode_utf8(a).len() <= KEYSTREAM_LIMIT,
        encode_utf8(b).len() <= KEYSTREAM_LIMIT,
        a != b,
    ensures
        encrypted_name(password, a, a_dir) != encrypted_name(password, b, b_dir),
{
    lemma_dir_name_round_trip(password, a);
    lemma_dir_name_round_trip(password, b);
    lemma_file_name_round_trip(password, a);
    lemma_file_name_round_trip(password, b);
    if a_dir != b_dir {
        let (d, f) = if a_dir { (a, b) } else { (b, a) };
        let dn = spec_encrypt_dir_name(password, d);
        let fnm = spec_encrypt_file_name(password, f);
        reveal_strlit(".dat");
        lemma_encrypted_dir_name_is_hex(password, d);
        if dn == fnm {
            let k = fnm.len() - 4;
            assert(fnm[k] == FILE_EXT@[0]);
            assert(crate::name_encrypt::is_lower_hex_char(dn[k]));
        }
    }
}

/// The new names of a pass of directory encryption: the files' names in
/// the file pass (`dirs` false), the directories' in the directory pass.
pub open spec fn encrypted_names(password: Seq<u8>, plain: Seq<Seq<char>>, is_dir: Seq<bool>, dirs: bool) -> Seq<Option<Seq<char>>> {
    Seq::new(
        plain.len(),
        |i: int| if is_dir[i] == dirs { Some(encrypted_name(password, plain[i], dirs)) } else { None },
    )
}

/// The name a file takes back when decrypted: the one its trailer records.
pub open spec fn restored_file_name(image: Seq<u8>, password: Seq<u8>) -> Option<Seq<char>> {
    match spec_read_from_file(file_tail(image), password) {
        Some(m) => Some(m.orig_name),
        None => None,
    }
}

/// The new names of the directory pass of directory decryption.
pub open spec fn restored_dir_names(password: Seq<u8>, names: Seq<Seq<char>>, is_dir: Seq<bool>) -> Seq<Option<Seq<char>>> {
    Seq::new(names.len(), |i: int| if is_dir[i] { spec_decrypt_dir_name(password, names[i]) } else { None })
}

/// The new names of the file pass of directory decryption, for files
/// holding `images`.
pub open spec fn restored_file_names(password: Seq<u8>, images: Seq<Seq<u8>>, is_dir: Seq<bool>) -> Seq<Option<Seq<char>>> {
    Seq::new(images.len(), |i: int| if is_dir[i] { None } else { restored_file_name(images[i], password) })
}

/// The names after directory encryption: the files renamed in
/// `file_order`, then the directories in `dir_order`, all found by the
/// paths of one walk.
pub open spec fn spec_encrypt_tree(
    parents: Seq<int>,
    plain: Seq<Seq<char>>,
    is_dir: Seq<bool>,
    file_order: Seq<usize>,
    dir_order: Seq<usize>,
    password: Seq<u8>,
) -> Option<Seq<Seq<char>>> {
    match run_renames(parents, plain, plain, file_order, encrypted_names(password, plain, is_dir, false)) {
        Some(after_files) => run_renames(
            parents,
            plain,
            after_files,
            dir_order,
            encrypted_names(password, plain, is_dir, true),
        ),
        None => None,
    }
}

/// The names after directory decryption of files holding `images`: the
/// directories renamed in `dir_order` by the paths of one walk, then the
/// files in `file_order` by the paths of a second walk.
pub open spec fn spec_decrypt_tree(
    parents: Seq<int>,
    names: Seq<Seq<char>>,
    is_dir: Seq<bool>,
    dir_order: Seq<usize>,
    file_order: Seq<usize>,
    images: Seq<Seq<u8>>,
    password: Seq<u8>,
) -> Option<Seq<Seq<char>>> {
    match run_renames(parents, names, names, dir_order, restored_dir_names(password, names, is_dir)) {
        Some(after_dirs) => run_renames(
            parents,
            after_dirs,
            after_dirs,
            file_order,
            restored_file_names(password, images, is_dir),
        ),
        None => None,
    }
}

/// The entries of a tree that are files.
pub open spec fn file_flags(is_dir: Seq<bool>) -> Seq<bool> {
    Seq::new(is_dir.len(), |i: int| !is_dir[i])
}

/// The shape a tree must have for the round trip: parents are earlier,
/// shallower directories; names fit the keystream; sibling names differ and
/// no entry's encrypted name is the name of one of its siblings.
pub open spec fn tree_hyps(
    parents: Seq<int>,
    depths: Seq<usize>,
    is_dir: Seq<bool>,
    plain: Seq<Seq<char>>,
    password: Seq<u8>,
) -> bool {
    &&& tree_wf(parents)
    &&& parents.len() <= usize::MAX
    &&& depths.len() == parents.len()
    &&& is_dir.len() == parents.len()
    &&& plain.len() == parents.len()
    &&& forall|j: int|
        0 <= j < parents.len() && #[trigger] parents[j] >= 0 ==> depths[parents[j]] < depths[j] && is_dir[parents[j]]
    &&& forall|i: int| 0 <= i < parents.len() ==> encode_utf8(#[trigger] plain[i]).len() <= KEYSTREAM_LIMIT
    &&& forall|i: int, j: int|
        0 <= i < parents.len() && 0 <= j < parents.len() && #[trigger] siblings(parents, i, j) ==> plain[i] != plain[j]
            && encrypted_name(password, plain[i], is_dir[i]) != plain[j]
}

/// The names of all entries after directory encryption.
pub open spec fn encrypted_tree(password: Seq<u8>, plain: Seq<Seq<char>>, is_dir: Seq<bool>) -> Seq<Seq<char>> {
    Seq::new(plain.len(), |i: int| encrypted_name(password, plain[i], is_dir[i]))
}

/// The names with only the files (`dirs` false) or only the directories
/// encrypted.
pub open spec fn half_encrypted_tree(password: Seq<u8>, plain: Seq<Seq<char>>, is_dir: Seq<bool>, dirs: bool) -> Seq<Seq<char>> {
    Seq::new(plain.len(), |i: int| if is_dir[i] == dirs { encrypted_name(password, plain[i], is_dir[i]) } else { plain[i] })
}

proof fn lemma_siblings_encrypt_apart(parents: Seq<int>, depths: Seq<usize>, is_dir: Seq<bool>, plain: Seq<Seq<char>>, password: Seq<u8>)
    requires
        tree_hyps(parents, depths, is_dir, plain, password),
    ensures
        forall|i: int, j: int|
            0 <= i < parents.len() && 0 <= j < parents.len() && #[trigger] siblings(parents, i, j) ==> encrypted_name(
                password,
                plain[i],
                is_dir[i],
            ) != encrypted_name(password, plain[j], is_dir[j]),
{
    assert forall|i: int, j: int|
        0 <= i < parents.len() && 0 <= j < parents.len() && #[trigger] siblings(parents, i, j) implies encrypted_name(
        password,
        plain[i],
        is_dir[i],
    ) != encrypted_name(password, plain[j], is_dir[j]) by {
        lemma_encrypted_names_distinct(password, plain[i], is_dir[i], plain[j], is_dir[j]);
    }
}

/// The file pass of directory encryption encrypts every file's name.
proof fn lemma_encrypt_files_pass(
    parents: Seq<int>,
    depths: Seq<usize>,
    is_dir: Seq<bool>,
    plain: Seq<Seq<char>>,
    password: Seq<u8>,
    order: Seq<usize>,
)
    requires
        tree_hyps(parents, depths, is_dir, plain, password),
        is_depth_order(order, depths, file_flags(is_dir), true),
    ensures
        run_renames(parents, plain, plain, order, encrypted_names(password, plain, is_dir, false)) == Some(
            half_encrypted_tree(password, plain, is_dir, false),
        ),
{
    let n = parents.len();
    let ef = encrypted_names(password, plain, is_dir, false);
    lemma_siblings_encrypt_apart(parents, depths, is_dir, plain, password);
    lemma_deepest_first_no_ancestor_first(parents, depths, file_flags(is_dir), order);
    assert forall|k: int, j: int|
        0 <= k < order.len() && 0 <= j < n && ef[order[k] as int] is Some && siblings(parents, #[trigger] order[k] as int, j) implies {
            &&& ef[order[k] as int]->0 != #[trigger] plain[j]
            &&& (order.contains(j as usize) && ef[j] is Some ==> ef[order[k] as int]->0 != ef[j]->0)
        } by {
        let i = order[k] as int;
        assert(siblings(parents, i, j));
    }
    lemma_run_renames(parents, plain, plain, order, ef);
    lemma_renamed_selected(plain, order, ef, file_flags(is_dir));
    assert(renamed(plain, order, ef) =~= half_encrypted_tree(password, plain, is_dir, false));
}

/// The directory pass of directory encryption then encrypts every
/// directory's name.
proof fn lemma_encrypt_dirs_pass(
    parents: Seq<int>,
    depths: Seq<usize>,
    is_dir: Seq<bool>,
    plain: Seq<Seq<char>>,
    password: Seq<u8>,
    order: Seq<usize>,
)
    requires
        tree_hyps(parents, depths, is_dir, plain, password),
        is_depth_order(order, depths, is_dir, true),
    ensures
        run_renames(
            parents,
            plain,
            half_encrypted_tree(password, plain, is_dir, false),
            order,
            encrypted_names(password, plain, is_dir, true),
        ) == Some(encrypted_tree(password, plain, is_dir)),
{
    let n = parents.len();
    let after_files = half_encrypted_tree(password, plain, is_dir, false);
    let ed = encrypted_names(password, plain, is_dir, true);
    lemma_siblings_encrypt_apart(parents, depths, is_dir, plain, password);
    lemma_deepest_first_no_ancestor_first(parents, depths, is_dir, order);
    assert forall|k: int, x: int|
        0 <= k < order.len() && 0 <= x < n && (x == order[k] || is_ancestor(parents, x, #[trigger] order[k] as int))
        implies #[trigger] after_files[x] == plain[x] by {
        if x != order[k] {
            lemma_ancestor_is_dir(parents, is_dir, x, order[k] as int);
        }
    }
    assert forall|k: int, j: int|
        0 <= k < order.len() && 0 <= j < n && ed[order[k] as int] is Some && siblings(parents, #[trigger] order[k] as int, j) implies {
            &&& ed[order[k] as int]->0 != #[trigger] after_files[j]
            &&& (order.contains(j as usize) && ed[j] is Some ==> ed[order[k] as int]->0 != ed[j]->0)
        } by {
        let i = order[k] as int;
        assert(siblings(parents, i, j));
    }
    lemma_run_renames(parents, plain, after_files, order, ed);
    lemma_renamed_selected(after_files, order, ed, is_dir);
    assert(renamed(after_files, order, ed) =~= encrypted_tree(password, plain, is_dir));
}

/// The directory pass of directory decryption restores every directory's
/// name.
proof fn lemma_decrypt_dirs_pass(
    parents: Seq<int>,
    depths: Seq<usize>,
    is_dir: Seq<bool>,
    plain: Seq<Seq<char>>,
    password: Seq<u8>,
    order: Seq<usize>,
)
    requires
        tree_hyps(parents, depths, is_dir, plain, password),
        is_depth_order(order, depths, is_dir, true),
    ensures
        run_renames(
            parents,
            encrypted_tree(password, plain, is_dir),
            encrypted_tree(password, plain, is_dir),
            order,
            restored_dir_names(password, encrypted_tree(password, plain, is_dir), is_dir),
        ) == Some(half_encrypted_tree(password, plain, is_dir, false)),
{
    let n = parents.len();
    let encrypted = encrypted_tree(password, plain, is_dir);
    let dd = restored_dir_names(password, encrypted, is_dir);
    assert forall|i: int| 0 <= i < n && is_dir[i] implies #[trigger] dd[i] == Some(plain[i]) by {
        lemma_dir_name_round_trip(password, plain[i]);
    }
    lemma_deepest_first_no_ancestor_first(parents, depths, is_dir, order);
    assert forall|k: int, j: int|
        0 <= k < order.len() && 0 <= j < n && dd[order[k] as int] is Some && siblings(parents, #[trigger] order[k] as int, j) implies {
            &&& dd[order[k] as int]->0 != #[trigger] encrypted[j]
            &&& (order.contains(j as usize) && dd[j] is Some ==> dd[order[k] as int]->0 != dd[j]->0)
        } by {
        let i = order[k] as int;
        assert(is_dir[i]);
        assert(siblings(parents, j, i));
        assert(siblings(parents, i, j));
        if order.contains(j as usize) {
            let m = choose|m: int| 0 <= m < order.len() && order[m] == j as usize;
            assert(order[m] as int == j);
            assert(is_dir[j]);
        }
    }
    lemma_run_renames(parents, encrypted, encrypted, order, dd);
    lemma_renamed_selected(encrypted, order, dd, is_dir);
    assert(renamed(encrypted, order, dd) =~= half_encrypted_tree(password, plain, is_dir, false));
}

/// What each file of the tree must be for its content to come back.
pub open spec fn files_hyps(
    is_dir: Seq<bool>,
    plain: Seq<Seq<char>>,
    contents: Seq<Seq<u8>>,
    metas: Seq<MetadataModel>,
    password: Seq<u8>,
) -> bool {
    &&& contents.len() == is_dir.len()
    &&& metas.len() == is_dir.len()
    &&& forall|i: int|
        0 <= i < is_dir.len() && !#[trigger] is_dir[i] ==> {
            &&& round_trippable(metas[i])
            &&& metas[i].orig_name == plain[i]
            &&& metas[i].orig_size == contents[i].len()
            &&& spec_to_bytes(metas[i], password).len() <= MAX_TRAILER_LEN
            &&& contents[i].len() <= KEYSTREAM_LIMIT
        }
}

/// The encrypted files of the tree.
pub open spec fn encrypted_images(contents: Seq<Seq<u8>>, metas: Seq<MetadataModel>, password: Seq<u8>) -> Seq<Seq<u8>> {
    Seq::new(contents.len(), |i: int| spec_encrypt_image(contents[i], metas[i], password))
}

/// The files of the tree, in walk order.
pub open spec fn is_file_order(order: Seq<usize>, is_dir: Seq<bool>) -> bool {
    &&& forall|k: int| 0 <= k < order.len() ==> #[trigger] order[k] < is_dir.len() && !is_dir[order[k] as int]
    &&& forall|i: int| 0 <= i < is_dir.len() && !is_dir[i] ==> #[trigger] order.contains(i as usize)
    &&& forall|a: int, b: int| 0 <= a < b < order.len() ==> #[trigger] order[a] < #[trigger] order[b]
}

/// The file pass of directory decryption restores every file's name, from
/// its trailer, and its content.
proof fn lemma_decrypt_files_pass(
    parents: Seq<int>,
    depths: Seq<usize>,
    is_dir: Seq<bool>,
    plain: Seq<Seq<char>>,
    contents: Seq<Seq<u8>>,
    metas: Seq<MetadataModel>,
    password: Seq<u8>,
    order: Seq<usize>,
)
    requires
        tree_hyps(parents, depths, is_dir, plain, password),
        files_hyps(is_dir, plain, contents, metas, password),
        is_file_order(order, is_dir),
    ensures
        run_renames(
            parents,
            half_encrypted_tree(password, plain, is_dir, false),
            half_encrypted_tree(password, plain, is_dir, false),
            order,
            restored_file_names(password, encrypted_images(contents, metas, password), is_dir),
        ) == Some(plain),
        forall|i: int|
            0 <= i < parents.len() && !#[trigger] is_dir[i] ==> spec_decrypt_image(
                encrypted_images(contents, metas, password)[i],
                password,
            ) == Some(contents[i]),
{
    let n = parents.len();
    let after_dirs = half_encrypted_tree(password, plain, is_dir, false);
    let images = encrypted_images(contents, metas, password);
    let df = restored_file_names(password, images, is_dir);
    assert forall|i: int| 0 <= i < n && !is_dir[i] implies #[trigger] df[i] == Some(plain[i])
        && spec_decrypt_image(images[i], password) == Some(contents[i]) by {
        lemma_file_round_trip(contents[i], metas[i], password);
    }
    assert forall|a: int, b: int| 0 <= a < b < order.len() implies #[trigger] order[a] != #[trigger] order[b] by {}
    assert forall|a: int, b: int| 0 <= a < b < order.len() implies !is_ancestor(
        parents,
        #[trigger] order[a] as int,
        #[trigger] order[b] as int,
    ) by {
        if is_ancestor(parents, order[a] as int, order[b] as int) {
            lemma_ancestor_is_dir(parents, is_dir, order[a] as int, order[b] as int);
        }
    }
    assert forall|k: int, j: int|
        0 <= k < order.len() && 0 <= j < n && df[order[k] as int] is Some && siblings(parents, #[trigger] order[k] as int, j) implies {
            &&& df[order[k] as int]->0 != #[trigger] after_dirs[j]
            &&& (order.contains(j as usize) && df[j] is Some ==> df[order[k] as int]->0 != df[j]->0)
        } by {
        let i = order[k] as int;
        assert(!is_dir[i]);
        assert(siblings(parents, j, i));
        assert(siblings(parents, i, j));
        if order.contains(j as usize) {
            let m = choose|m: int| 0 <= m < order.len() && order[m] == j as usize;
            assert(order[m] as int == j);
            assert(!is_dir[j]);
        }
    }
    lemma_run_renames(parents, after_dirs, after_dirs, order, df);
    lemma_renamed_selected(after_dirs, order, df, file_flags(is_dir));
    assert(renamed(after_dirs, order, df) =~= plain);
}

/// How many entries a pass processes: those of its order that have a new
/// name.
pub open spec fn renames_count(order: Seq<usize>, new_names: Seq<Option<Seq<char>>>) -> nat
    decreases order.len(),
{
    if order.len() == 0 {
        0
    } else {
        renames_count(order.drop_first(), new_names) + (if new_names[order[0] as int] is Some {
            1nat
        } else {
            0nat
        })
    }
}

/// A pass whose entries all have new names processes every one of them.
proof fn lemma_renames_count_all(order: Seq<usize>, new_names: Seq<Option<Seq<char>>>)
    requires
        forall|k: int| 0 <= k < order.len() ==> new_names[#[trigger] order[k] as int] is Some,
    ensures
        renames_count(order, new_names) == order.len(),
    decreases order.len(),
{
    if order.len() > 0 {
        assert forall|k: int| 0 <= k < order.drop_first().len() implies new_names[#[trigger] order.drop_first()[k] as int] is Some by {
            assert(order.drop_first()[k] == order[k + 1]);
        }
        lemma_renames_count_all(order.drop_first(), new_names);
        assert(new_names[order[0] as int] is Some);
    }
}

/// The selected entries, as a set of indices.
pub open spec fn selected_set(selected: Seq<bool>) -> Set<usize> {
    Set::new(|x: usize| x < selected.len() && selected[x as int])
}

/// An order that lists the selected entries once each is as long as there
/// are selected entries.
proof fn lemma_order_len(order: Seq<usize>, selected: Seq<bool>)
    requires
        selected.len() <= usize::MAX,
        forall|k: int| 0 <= k < order.len() ==> #[trigger] order[k] < selected.len() && selected[order[k] as int],
        forall|i: int| 0 <= i < selected.len() && selected[i] ==> #[trigger] order.contains(i as usize),
        forall|a: int, b: int| 0 <= a < b < order.len() ==> #[trigger] order[a] != #[trigger] order[b],
    ensures
        order.len() == selected_set(selected).len(),
{
    assert(order.no_duplicates()) by {
        assert forall|i: int, j: int| 0 <= i < order.len() && 0 <= j < order.len() && i != j implies order[i] != order[j] by {
            if i < j {
                assert(order[i] != order[j]);
            } else {
                assert(order[j] != order[i]);
            }
        }
    }
    order.unique_seq_to_set();
    assert forall|x: usize| #[trigger] order.to_set().contains(x) <==> selected_set(selected).contains(x) by {
        if order.contains(x) {
            let k = choose|k: int| 0 <= k < order.len() && order[k] == x;
            assert(order[k] < selected.len() && selected[order[k] as int]);
        }
        if selected_set(selected).contains(x) {
            assert(order.contains(x as int as usize));
        }
    }
    assert(order.to_set() =~= selected_set(selected));
}

/// Decrypting a directory restores what encrypting it changed, at any
/// depth: encryption (files, then directories, both deepest first from one
/// walk) gives every entry its encrypted name; decryption (directories
/// deepest first from one walk, then the files of a second walk, in walk
/// order) gives every entry its name back, every file its content, and
/// every file's trailer its recorded size and modification time; and
/// decryption processes as many entries as encryption did.
/// Sibling names must differ, and no entry's encrypted name may be the
/// name of one of its siblings (else a rename would clash).
pub proof fn lemma_directory_round_trip(
    parents: Seq<int>,
    depths: Seq<usize>,
    is_dir: Seq<bool>,
    plain: Seq<Seq<char>>,
    contents: Seq<Seq<u8>>,
    metas: Seq<MetadataModel>,
    password: Seq<u8>,
    enc_files: Seq<usize>,
    enc_dirs: Seq<usize>,
    dec_dirs: Seq<usize>,
    dec_files: Seq<usize>,
)
    requires
        tree_hyps(parents, depths, is_dir, plain, password),
        files_hyps(is_dir, plain, contents, metas, password),
        is_depth_order(enc_files, depths, file_flags(is_dir), true),
        is_depth_order(enc_dirs, depths, is_dir, true),
        is_depth_order(dec_dirs, depths, is_dir, true),
        is_file_order(dec_files, is_dir),
    ensures
        spec_encrypt_tree(parents, plain, is_dir, enc_files, enc_dirs, password) == Some(
            encrypted_tree(password, plain, is_dir),
        ),
        spec_decrypt_tree(
            parents,
            encrypted_tree(password, plain, is_dir),
            is_dir,
            dec_dirs,
            dec_files,
            encrypted_images(contents, metas, password),
            password,
        ) == Some(plain),
        forall|i: int|
            0 <= i < parents.len() && !#[trigger] is_dir[i] ==> spec_decrypt_image(
                encrypted_images(contents, metas, password)[i],
                password,
            ) == Some(contents[i]),
        forall|i: int|
            0 <= i < parents.len() && !#[trigger] is_dir[i] ==> spec_read_from_file(
                file_tail(encrypted_images(contents, metas, password)[i]),
                password,
            ) == Some(metas[i]),
        renames_count(enc_files, encrypted_names(password, plain, is_dir, false)) + renames_count(
            enc_dirs,
            encrypted_names(password, plain, is_dir, true),
        ) == renames_count(dec_dirs, restored_dir_names(password, encrypted_tree(password, plain, is_dir), is_dir))
            + renames_count(dec_files, restored_file_names(password, encrypted_images(contents, metas, password), is_dir)),
{
    lemma_encrypt_files_pass(parents, depths, is_dir, plain, password, enc_files);
    lemma_encrypt_dirs_pass(parents, depths, is_dir, plain, password, enc_dirs);
    lemma_decrypt_dirs_pass(parents, depths, is_dir, plain, password, dec_dirs);
    lemma_decrypt_files_pass(parents, depths, is_dir, plain, contents, metas, password, dec_files);
    lemma_processed_counts(parents, depths, is_dir, plain, contents, metas, password, enc_files, enc_dirs, dec_dirs, dec_files);
    assert forall|i: int| 0 <= i < parents.len() && !#[trigger] is_dir[i] implies spec_read_from_file(
        file_tail(encrypted_images(contents, metas, password)[i]),
        password,
    ) == Some(metas[i]) by {
        lemma_file_round_trip(contents[i], metas[i], password);
    }
}

/// Decryption processes as many entries as encryption did: every file and
/// every directory, once each.
proof fn lemma_processed_counts(
    parents: Seq<int>,
    depths: Seq<usize>,
    is_dir: Seq<bool>,
    plain: Seq<Seq<char>>,
    contents: Seq<Seq<u8>>,
    metas: Seq<MetadataModel>,
    password: Seq<u8>,
    enc_files: Seq<usize>,
    enc_dirs: Seq<usize>,
    dec_dirs: Seq<usize>,
    dec_files: Seq<usize>,
)
    requires
        tree_hyps(parents, depths, is_dir, plain, password),
        files_hyps(is_dir, plain, contents, metas, password),
        is_depth_order(enc_files, depths, file_flags(is_dir), true),
        is_depth_order(enc_dirs, depths, is_dir, true),
        is_depth_order(dec_dirs, depths, is_dir, true),
        is_file_order(dec_files, is_dir),
    ensures
        renames_count(enc_files, encrypted_names(password, plain, is_dir, false)) == dec_files.len(),
        renames_count(enc_dirs, encrypted_names(password, plain, is_dir, true)) == dec_dirs.len(),
        renames_count(dec_dirs, restored_dir_names(password, encrypted_tree(password, plain, is_dir), is_dir))
            == dec_dirs.len(),
        renames_count(dec_files, restored_file_names(password, encrypted_images(contents, metas, password), is_dir))
            == dec_files.len(),
{
    let n = parents.len();
    let files = file_flags(is_dir);
    let ef = encrypted_names(password, plain, is_dir, false);
    let ed = encrypted_names(password, plain, is_dir, true);
    let dd = restored_dir_names(password, encrypted_tree(password, plain, is_dir), is_dir);
    let df = restored_file_names(password, encrypted_images(contents, metas, password), is_dir);
    lemma_deepest_first_no_ancestor_first(parents, depths, files, enc_files);
    lemma_deepest_first_no_ancestor_first(parents, depths, is_dir, enc_dirs);
    lemma_deepest_first_no_ancestor_first(parents, depths, is_dir, dec_dirs);
    assert forall|k: int| 0 <= k < dec_files.len() implies #[trigger] dec_files[k] < files.len() && files[dec_files[k] as int] by {}
    assert forall|a: int, b: int| 0 <= a < b < dec_files.len() implies #[trigger] dec_files[a] != #[trigger] dec_files[b] by {}
    lemma_order_len(enc_files, files);
    lemma_order_len(dec_files, files);
    lemma_order_len(enc_dirs, is_dir);
    lemma_order_len(dec_dirs, is_dir);
    assert forall|k: int| 0 <= k < enc_files.len() implies ef[#[trigger] enc_files[k] as int] is Some by {
        assert(files[enc_files[k] as int]);
    }
    lemma_renames_count_all(enc_files, ef);
    assert forall|k: int| 0 <= k < enc_dirs.len() implies ed[#[trigger] enc_dirs[k] as int] is Some by {
        assert(is_dir[enc_dirs[k] as int]);
    }
    lemma_renames_count_all(enc_dirs, ed);
    assert forall|k: int| 0 <= k < dec_dirs.len() implies dd[#[trigger] dec_dirs[k] as int] is Some by {
        let i = dec_dirs[k] as int;
        assert(is_dir[i]);
        lemma_dir_name_round_trip(password, plain[i]);
    }
    lemma_renames_count_all(dec_dirs, dd);
    assert forall|k: int| 0 <= k < dec_files.len() implies df[#[trigger] dec_files[k] as int] is Some by {
        let i = dec_files[k] as int;
        assert(!is_dir[i]);
        lemma_file_round_trip(contents[i], metas[i], password);
    }
    lemma_renames_count_all(dec_files, df);
}

/// Which walked entries are directories.
pub open spec fn entry_is_dir(entries: Seq<WalkEntry>) -> Seq<bool> {
    entries.map_values(|e: WalkEntry| e.kind == EntryKind::Dir)
}

/// For a walk of files and directories below the root, without the
/// program, the orders `encrypt_order` and `decrypt_dir_order` promise are
/// the ones the round trip takes: all files (when none is encrypted yet),
/// and all directories.
pub proof fn lemma_walk_selections(entries: Seq<WalkEntry>)
    requires
        forall|i: int|
            0 <= i < entries.len() ==> !(#[trigger] entries[i]).is_root && !entries[i].is_exe && entries[i].kind
                != EntryKind::Other,
    ensures
        selection_flags(Selection::EncryptDirs, entries) == entry_is_dir(entries),
        selection_flags(Selection::DecryptDirs, entries) == entry_is_dir(entries),
        (forall|i: int| 0 <= i < entries.len() ==> !(#[trigger] entries[i]).encrypted) ==> selection_flags(
            Selection::EncryptFiles,
            entries,
        ) == file_flags(entry_is_dir(entries)),
{
    assert(selection_flags(Selection::EncryptDirs, entries) =~= entry_is_dir(entries));
    assert(selection_flags(Selection::DecryptDirs, entries) =~= entry_is_dir(entries));
    if forall|i: int| 0 <= i < entries.len() ==> !(#[trigger] entries[i]).encrypted {
        assert(selection_flags(Selection::EncryptFiles, entries) =~= file_flags(entry_is_dir(entries)));
    }
}

} // verus!
