//! Choice of system CJK fonts for the window: among font files found on
//! the system, a regular and a bold face whose names carry one of the
//! wanted family keywords, with any other match as a fallback.

use crate::text::{ascii_lower, has_substring, has_suffix, str_contains, str_ends_with, str_to_ascii_lowercase};
use vstd::prelude::*;

verus! {

/// Windows fonts with Chinese glyphs, in order of preference.
pub fn windows_font_paths() -> (v: Vec<&'static str>)
    ensures
        v@.len() == 4,
        v@[0]@ == "C:/Windows/Fonts/msyh.ttc"@,
        v@[1]@ == "C:/Windows/Fonts/msyhbd.ttc"@,
        v@[2]@ == "C:/Windows/Fonts/simsun.ttc"@,
        v@[3]@ == "C:/Windows/Fonts/simhei.ttf"@,
{
    let mut v: Vec<&'static str> = Vec::new();
    v.push("C:/Windows/Fonts/msyh.ttc");
    v.push("C:/Windows/Fonts/msyhbd.ttc");
    v.push("C:/Windows/Fonts/simsun.ttc");
    v.push("C:/Windows/Fonts/simhei.ttf");
    v
}

/// Sans-serif CJK font families, looked for first.
pub fn sans_keywords() -> (v: Vec<&'static str>)
    ensures
        v@.len() == 6,
        v@[0]@ == "notosanscjk"@,
        v@[1]@ == "sourcehansans"@,
        v@[2]@ == "wqy"@,
        v@[3]@ == "wenquanyi"@,
        v@[4]@ == "droidsansfallback"@,
        v@[5]@ == "uming"@,
{
    let mut v: Vec<&'static str> = Vec::new();
    v.push("notosanscjk");
    v.push("sourcehansans");
    v.push("wqy");
    v.push("wenquanyi");
    v.push("droidsansfallback");
    v.push("uming");
    v
}

/// Serif CJK font families, looked for when no sans-serif one is found.
pub fn serif_keywords() -> (v: Vec<&'static str>)
    ensures
        v@.len() == 2,
        v@[0]@ == "notoserifcjk"@,
        v@[1]@ == "sourcehanserif"@,
{
    let mut v: Vec<&'static str> = Vec::new();
    v.push("notoserifcjk");
    v.push("sourcehanserif");
    v
}

/// What a font file is good for.
#[derive(Clone, Copy, Debug, PartialEq, Eq, Structural)]
pub enum FontRole {
    Regular,
    Bold,
    Other,
}

/// `s` with `A-Z` mapped to `a-z`.
pub open spec fn lowercase(s: Seq<char>) -> Seq<char> {
    Seq::new(s.len(), |i: int| ascii_lower(s[i]))
}

/// A TrueType or OpenType font file name (in lowercase).
pub open spec fn is_font_file(name: Seq<char>) -> bool {
    has_suffix(name, ".ttf"@) || has_suffix(name, ".otf"@) || has_suffix(name, ".ttc"@)
}

/// One of the keywords occurs in the name.
pub open spec fn has_keyword(name: Seq<char>, keywords: Seq<&str>) -> bool {
    exists|i: int| 0 <= i < keywords.len() && has_substring(name, #[trigger] keywords[i]@)
}

/// The role of a file by its name, or `None` when it is not a wanted font.
pub open spec fn spec_font_role(file_name: Seq<char>, keywords: Seq<&str>) -> Option<FontRole> {
    let name = lowercase(file_name);
    if !is_font_file(name) || !has_keyword(name, keywords) {
        None
    } else if has_substring(name, "regular"@) {
        Some(FontRole::Regular)
    } else if has_substring(name, "bold"@) {
        Some(FontRole::Bold)
    } else {
        Some(FontRole::Other)
    }
}

/// The role of a font file, judged by its name.
pub fn font_role(file_name: &str, keywords: &[&str]) -> (r: Option<FontRole>)
    ensures
        r == spec_font_role(file_name@, keywords@),
{
    let lower = str_to_ascii_lowercase(file_name);
    let name = lower.as_str();
    assert(name@ =~= lowercase(file_name@));
    if !(str_ends_with(name, ".ttf") || str_ends_with(name, ".otf") || str_ends_with(name, ".ttc")) {
        return None;
    }
    let mut found = false;
    let mut i: usize = 0;
    while i < keywords.len()
        invariant
            0 <= i <= keywords@.len(),
            name@ == lowercase(file_name@),
            found == exists|j: int| 0 <= j < i && has_substring(name@, #[trigger] keywords@[j]@),
        decreases keywords@.len() - i,
    {
        if str_contains(name, keywords[i]) {
            found = true;
        }
        i = i + 1;
    }
    if !found {
        return None;
    }
    if str_contains(name, "regular") {
        Some(FontRole::Regular)
    } else if str_contains(name, "bold") {
        Some(FontRole::Bold)
    } else {
        Some(FontRole::Other)
    }
}

/// The fonts chosen so far: the first regular, the first bold and the
/// first other matching face. `P` is the type of a font file's path.
pub struct FontPicker<P> {
    pub regular: Option<P>,
    pub bold: Option<P>,
    pub fallback: Option<P>,
}

impl<P> FontPicker<P> {
    /// Nothing chosen yet.
    pub fn new() -> (p: Self)
        ensures
            p.regular is None,
            p.bold is None,
            p.fallback is None,
    {
        FontPicker { regular: None, bold: None, fallback: None }
    }

    /// Considers one font file. It fills the first free slot of its role;
    /// the result says that it was a wanted font and both a regular and a
    /// bold face are now chosen, so the search can stop.
    pub fn offer(&mut self, file_name: &str, path: P, keywords: &[&str]) -> (done: bool)
        ensures
            ({
                let role = spec_font_role(file_name@, keywords@);
                &&& final(self).regular == (if role == Some(FontRole::Regular) && old(self).regular is None {
                    Some(path)
                } else {
                    old(self).regular
                })
                &&& final(self).bold == (if role == Some(FontRole::Bold) && old(self).bold is None {
                    Some(path)
                } else {
                    old(self).bold
                })
                &&& final(self).fallback == (if role == Some(FontRole::Other) && old(self).fallback is None {
                    Some(path)
                } else {
                    old(self).fallback
                })
                &&& done == (role is Some && final(self).regular is Some && final(self).bold is Some)
            }),
    {
        let role = font_role(file_name, keywords);
        match role {
            None => {
                return false;
            },
            Some(FontRole::Regular) => {
                if self.regular.is_none() {
                    self.regular = Some(path);
                }
            },
            Some(FontRole::Bold) => {
                if self.bold.is_none() {
                    self.bold = Some(path);
                }
            },
            Some(FontRole::Other) => {
                if self.fallback.is_none() {
                    self.fallback = Some(path);
                }
            },
        }
        self.regular.is_some() && self.bold.is_some()
    }

    /// The chosen fonts: regular, then bold, then the fallback, at most two.
    pub fn picked(self) -> (v: Vec<P>)
        ensures
            ({
                let all = (if self.regular is Some { seq![self.regular->0] } else { seq![] }) + (if self.bold is Some {
                    seq![self.bold->0]
                } else {
                    seq![]
                }) + (if self.fallback is Some { seq![self.fallback->0] } else { seq![] });
                v@ == all.take(if all.len() < 2 { all.len() as int } else { 2 })
            }),
    {
        let ghost all = (if self.regular is Some { seq![self.regular->0] } else { seq![] }) + (if self.bold is Some {
            seq![self.bold->0]
        } else {
            seq![]
        }) + (if self.fallback is Some { seq![self.fallback->0] } else { seq![] });
        let mut v: Vec<P> = Vec::new();
        if let Some(r) = self.regular {
            v.push(r);
        }
        if let Some(b) = self.bold {
            v.push(b);
        }
        if v.len() < 2 {
            if let Some(f) = self.fallback {
                v.push(f);
            }
        }
        assert(v@ =~= all.take(if all.len() < 2 { all.len() as int } else { 2 }));
        v
    }
}

} // verus!
