//! Folder hiding: a folder renamed to end in `.` and the Control Panel
//! CLSID is shown by Windows Explorer as that system folder.

use crate::text::{has_suffix, str_ends_with, str_strip_suffix};
use vstd::prelude::*;

verus! {

/// The Control Panel class id.
pub const CLSID: &'static str = "{21EC2020-3AEA-1069-A2DD-08002B30309D}";

/// What a hidden folder's name ends with: `.` and the CLSID.
pub open spec fn spec_hidden_suffix() -> Seq<char> {
    "."@ + CLSID@
}

/// The suffix `.{CLSID}` as a string.
fn hidden_suffix() -> (s: String)
    ensures
        s@ == spec_hidden_suffix(),
{
    String::from_str(".").concat(CLSID)
}

/// The name a folder called `name` gets when it is hidden.
pub fn hidden_name(name: &str) -> (s: String)
    ensures
        s@ == name@ + spec_hidden_suffix(),
{
    let suffix = hidden_suffix();
    String::from_str(name).concat(suffix.as_str())
}

/// The name a hidden folder called `name` gets back when it is unhidden;
/// `None` when the name does not end with `.{CLSID}`.
pub fn unhidden_name(name: &str) -> (r: Option<String>)
    ensures
        r is Some <==> has_suffix(name@, spec_hidden_suffix()),
        r matches Some(s) ==> s@ == name@.subrange(0, name@.len() - spec_hidden_suffix().len()),
{
    let suffix = hidden_suffix();
    match str_strip_suffix(name, suffix.as_str()) {
        Some(stripped) => Some(String::from_str(stripped)),
        None => None,
    }
}

/// Whether a folder's name marks it as hidden.
pub fn is_hidden(name: &str) -> (r: bool)
    ensures
        r == has_suffix(name@, spec_hidden_suffix()),
{
    let suffix = hidden_suffix();
    str_ends_with(name, suffix.as_str())
}

/// The name of the folder a directory decryption works on, for a program
/// folder called `name`: after the folder was unhidden, its restored name;
/// otherwise `name` itself.
pub fn folder_to_decrypt(name: &str, unhidden: bool) -> (r: String)
    ensures
        r@ == (if unhidden && has_suffix(name@, spec_hidden_suffix()) {
            name@.subrange(0, name@.len() - spec_hidden_suffix().len())
        } else {
            name@
        }),
{
    if unhidden {
        match unhidden_name(name) {
            Some(n) => n,
            None => String::from_str(name),
        }
    } else {
        String::from_str(name)
    }
}

/// A hidden folder is recognised as hidden and unhides to its old name.
pub proof fn lemma_hide_round_trip(name: Seq<char>)
    ensures
        has_suffix(name + spec_hidden_suffix(), spec_hidden_suffix()),
        (name + spec_hidden_suffix()).subrange(
            0,
            (name + spec_hidden_suffix()).len() - spec_hidden_suffix().len(),
        ) == name,
{
    let h = name + spec_hidden_suffix();
    assert(h.subrange(h.len() - spec_hidden_suffix().len(), h.len() as int) =~= spec_hidden_suffix());
    assert(h.subrange(0, h.len() - spec_hidden_suffix().len()) =~= name);
}

} // verus!
