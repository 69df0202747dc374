//! Paths the runtime derives from the working directory.
use vstd::prelude::*;
use crate::text::{has_prefix, push_char, push_str};

verus! {

/// `rel` names a path below another one: it is not empty, does not start at
/// a root and names no drive.
pub open spec fn is_relative(rel: Seq<char>) -> bool {
    rel.len() > 0 && rel[0] != '/' && rel[0] != '\\' && !rel.contains(':')
}

/// What joining `rel` below `base` gives on every platform: `base`, a
/// separator where `base` does not end with one, then `rel`. Where `base`
/// ends with neither `/` nor `\` and is no bare drive such as `C:`, the
/// separator is added; it is the platform's, `/` or `\`. A base ending with
/// `\` (a separator on Windows only) or a bare drive may get none.
pub open spec fn joined(base: Seq<char>, rel: Seq<char>, r: Seq<char>) -> bool {
    &&& base.len() == 0 ==> r == rel
    &&& (base.len() > 0 && base.last() == '/') ==> r == base + rel
    &&& (base.len() > 0 && base.last() != '/' && base.last() != '\\' && !(base.len() == 2 && base[1] == ':'))
        ==> (r == base + seq!['/'] + rel || r == base + seq!['\\'] + rel)
    &&& (r == base + rel || r == base + seq!['/'] + rel || r == base + seq!['\\'] + rel)
}

/// `PathBuf::push` of `rel` onto `base`, written back as text.
///
/// The separator it adds is the platform's (`/` or `\`); which one is not
/// stated. A Windows verbatim base (`\\?\`) is left out, since there the
/// pushed part is rewritten with `\`.
#[verifier::external_body]
fn path_push(base: &str, rel: &str) -> (r: String)
    requires
        is_relative(rel@),
    ensures
        !has_prefix(base@, seq!['\\', '\\', '?', '\\']) ==> joined(base@, rel@, r@),
{
    let mut p = std::path::PathBuf::from(base);
    p.push(rel);
    p.to_string_lossy().to_string()
}

/// Where the schema of the UI elements lies, below the working directory `cwd`.
pub fn get_xml_schema_path_str(cwd: &str) -> (r: String)
    ensures
        !has_prefix(cwd@, seq!['\\', '\\', '?', '\\']) ==> joined(cwd@, "src/modules/ui/schema/ui_schema.xml"@, r@),
{
    let rel = "src/modules/ui/schema/ui_schema.xml";
    proof {
        reveal_strlit("src/modules/ui/schema/ui_schema.xml");
    }
    path_push(cwd, rel)
}

#[verifier::external_type_specification]
#[verifier::external_body]
pub struct ExPath(std::path::Path);

#[verifier::external_type_specification]
#[verifier::external_body]
pub struct ExPathBuf(std::path::PathBuf);

/// Extra methods of paths.
pub trait PathTrait {
    /// The path's last component, after the name of the directory that
    /// holds it and the platform's separator.
    fn display_relative(&self) -> (r: String)
        ensures
            is_relative_display(r@),
    ;
}

/// Extra methods of strings.
pub trait StringExt {
    /// The string as a path.
    fn to_path_buf(&self) -> std::path::PathBuf;
}

/// What a path holds, written as text the way `to_string_lossy` writes it.
pub uninterp spec fn path_str(p: &std::path::Path) -> Seq<char>;

/// `name` is nothing, or the last component of a path whose text is `text`:
/// it holds no `/`, and it stands in `text` at the start or after a
/// separator or a drive's `:`, followed only by separators and `.`.
pub open spec fn is_final_name(text: Seq<char>, name: Seq<char>) -> bool {
    name.len() == 0 || (!name.contains('/') && exists|i: int|
        #![trigger text.subrange(i, i + name.len())]
        0 <= i && i + name.len() <= text.len() && text.subrange(i, i + name.len()) == name && (i == 0 || text[i - 1]
            == '/' || text[i - 1] == '\\' || text[i - 1] == ':') && forall|k: int|
            i + name.len() <= k < text.len() ==> (text[k] == '/' || text[k] == '\\' || text[k] == '.'))
}

/// `pre` is the text of a path that begins `text`.
pub open spec fn is_text_prefix(pre: Seq<char>, text: Seq<char>) -> bool {
    pre.len() <= text.len() && text.take(pre.len() as int) == pre
}

/// Calls `Path::file_name`, written as text (lossily), or nothing where the
/// path has none. Claimed: a name is the path's last component as it stands
/// in the path's text (see [`is_final_name`]); which component std takes as
/// the last (trailing separators and `.`, `..`, prefixes) is its own rule
/// and not stated beyond that.
#[verifier::external_body]
fn final_name(p: &std::path::Path) -> (r: String)
    ensures
        is_final_name(path_str(p), r@),
{
    p.file_name().unwrap_or_default().to_string_lossy().to_string()
}

/// Calls `Path::parent`, or gives the empty path where there is none.
/// Claimed: the parent is a leading part of the path (std hands out a slice
/// of the path from its start); where it ends depends on the platform's
/// rules and is not stated.
#[verifier::external_body]
fn parent_or_empty(p: &std::path::Path) -> (r: &std::path::Path)
    ensures
        is_text_prefix(path_str(r), path_str(p)),
{
    p.parent().unwrap_or_else(|| std::path::Path::new(""))
}

/// Reads `std::path::MAIN_SEPARATOR`: `/` or `\`, depending on the platform.
#[verifier::external_body]
fn main_separator() -> (c: char)
    ensures
        c == '/' || c == '\\',
{
    std::path::MAIN_SEPARATOR
}

/// What a path holds, written as text the way `to_string_lossy` writes it.
pub uninterp spec fn path_text(p: std::path::PathBuf) -> Seq<char>;

/// Calls `PathBuf::from` on a string. Claimed: the path holds the string's
/// characters unchanged (std keeps the string's bytes as the path's bytes,
/// and a valid string reads back as itself).
#[verifier::external_body]
fn path_buf_from(s: &str) -> (r: std::path::PathBuf)
    ensures
        path_text(r) == s@,
{
    std::path::PathBuf::from(s)
}

/// `PathBuf::as_path`: the same path, with the same text.
pub assume_specification[std::path::PathBuf::as_path](_0: &std::path::PathBuf) -> (r: &std::path::Path)
    ensures
        path_str(r) == path_text(*_0),
;

/// `parent`, then `sep`, then `child`.
pub fn joined_with(parent: &str, sep: char, child: &str) -> (r: String)
    ensures
        r@ == parent@ + seq![sep] + child@,
{
    let mut r = String::new();
    push_str(&mut r, parent);
    push_char(&mut r, sep);
    push_str(&mut r, child);
    r
}

/// A parent's name, a separator and a child's name, neither name holding a `/`.
pub open spec fn is_relative_display(r: Seq<char>) -> bool {
    exists|parent: Seq<char>, sep: char, child: Seq<char>|
        r == parent + seq![sep] + child && (sep == '/' || sep == '\\') && !parent.contains('/') && !child.contains('/')
}

/// `r` displays the path whose text is `text`: the name of a parent (the
/// last component of a leading part of the path), a separator, and the
/// path's own name.
pub open spec fn displays(text: Seq<char>, r: Seq<char>) -> bool {
    exists|pt: Seq<char>, parent: Seq<char>, sep: char, child: Seq<char>|
        #![trigger is_text_prefix(pt, text), is_final_name(pt, parent), is_final_name(text, child), seq![sep]]
        is_text_prefix(pt, text) && is_final_name(pt, parent) && is_final_name(text, child) && (sep == '/' || sep
            == '\\') && r == parent + seq![sep] + child
}

/// The display of a path: the name of its parent, the separator, its name.
fn relative_text(p: &std::path::Path) -> (r: String)
    ensures
        displays(path_str(p), r@),
        is_relative_display(r@),
{
    let child = final_name(p);
    let up = parent_or_empty(p);
    let parent = final_name(up);
    let sep = main_separator();
    let r = joined_with(parent.as_str(), sep, child.as_str());
    assert(r@ == parent@ + seq![sep] + child@);
    assert(is_text_prefix(path_str(up), path_str(p)) && is_final_name(path_str(up), parent@)
        && is_final_name(path_str(p), child@) && seq![sep] == seq![sep]);
    r
}

impl PathTrait for std::path::Path {
    fn display_relative(&self) -> (r: String)
        ensures
            displays(path_str(self), r@),
    {
        relative_text(self)
    }
}

impl PathTrait for std::path::PathBuf {
    fn display_relative(&self) -> (r: String)
        ensures
            displays(path_text(*self), r@),
    {
        relative_text(self.as_path())
    }
}

impl StringExt for String {
    fn to_path_buf(&self) -> (r: std::path::PathBuf)
        ensures
            path_text(r) == self@,
    {
        path_buf_from(self.as_str())
    }
}

} // verus!
