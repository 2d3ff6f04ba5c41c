//! The agent's file sandbox rules: which relative paths may be used, the
//! size limits of reads and writes, and the reports the file tools give.

use vstd::prelude::*;
use crate::text::{
    chars_of, contains, contains_str, decimal, decimal_chars, extend_chars, extend_str,
    sort_strings, string_of, strings_view, lex_sorted, trim, trim_chars, trim_start_chars,
    trim_start_set, utf8_len, utf8_len_exact,
};

verus! {

/// Largest file the sandbox reads, in bytes.
pub const MAX_READ_BYTES: usize = 65_536;

/// Largest content the sandbox writes, in bytes.
pub const MAX_WRITE_BYTES: usize = 262_144;

/// Where the sandbox lives and what its workspace holds.
#[derive(Debug, Clone)]
pub struct SandboxStatus {
    pub root: String,
    pub workspace: String,
    pub exists: bool,
    pub files: Vec<String>,
}

/// Path separators stripped from the front of a relative path.
pub open spec fn separators() -> Seq<char> {
    seq!['/', '\\']
}

/// A user path relative to the workspace: trimmed, leading separators
/// dropped; `None` for the workspace itself; an error when it holds `..`.
pub open spec fn relative_path(rel: Seq<char>) -> Result<Option<Seq<char>>, Seq<char>> {
    let r = trim_start_set(trim(rel), separators());
    if r.len() == 0 {
        Ok(None)
    } else if contains(r, ".."@) {
        Err("path must not contain .."@)
    } else {
        Ok(Some(r))
    }
}

/// The workspace-relative form of a user path.
pub fn workspace_relative(rel: &str) -> (r: Result<Option<String>, String>)
    ensures
        match (r, relative_path(rel@)) {
            (Ok(None), Ok(None)) => true,
            (Ok(Some(a)), Ok(Some(b))) => a@ == b,
            (Err(a), Err(b)) => a@ == b,
            _ => false,
        },
{
    let seps: [char; 2] = ['/', '\\'];
    assert(seps@ =~= separators());
    let r = trim_start_chars(&trim_chars(&chars_of(rel)), &seps);
    if r.len() == 0 {
        Ok(None)
    } else if contains_str(&r, "..") {
        Err("path must not contain ..".to_owned())
    } else {
        Ok(Some(string_of(&r)))
    }
}

/// Refuses content over the write limit.
pub fn check_write_size(content: &str) -> (r: Result<(), String>)
    ensures
        r is Ok <==> utf8_len(content@) <= MAX_WRITE_BYTES,
        r matches Err(e) ==> e@ == "content too large (max 262144 bytes)"@,
{
    if utf8_len_exact(&chars_of(content)) > MAX_WRITE_BYTES as u128 {
        Err("content too large (max 262144 bytes)".to_owned())
    } else {
        Ok(())
    }
}

/// Refuses files over the read limit.
pub fn check_read_size(len: usize) -> (r: Result<(), String>)
    ensures
        r is Ok <==> len <= MAX_READ_BYTES,
        r matches Err(e) ==> e@ == "file too large (max 65536 bytes)"@,
{
    if len > MAX_READ_BYTES {
        Err("file too large (max 65536 bytes)".to_owned())
    } else {
        Ok(())
    }
}

/// The report of a write.
pub fn write_report(bytes: usize, path: &str) -> (r: String)
    ensures
        r@ == "wrote "@ + decimal(bytes as nat) + " bytes to "@ + path@,
{
    let mut v: Vec<char> = Vec::new();
    extend_str(&mut v, "wrote ");
    let d = decimal_chars(bytes as u64);
    extend_chars(&mut v, &d);
    extend_str(&mut v, " bytes to ");
    extend_str(&mut v, path);
    string_of(&v)
}

/// The report of a deletion.
pub fn delete_report(rel: &str) -> (r: String)
    ensures
        r@ == "deleted "@ + rel@,
{
    let mut v: Vec<char> = Vec::new();
    extend_str(&mut v, "deleted ");
    extend_str(&mut v, rel);
    string_of(&v)
}

/// A workspace listing entry: the name, with `/` after a directory.
pub fn listing_name(name: &str, is_dir: bool) -> (r: String)
    ensures
        r@ == if is_dir { name@ + "/"@ } else { name@ },
{
    let mut v: Vec<char> = Vec::new();
    extend_str(&mut v, name);
    if is_dir {
        extend_str(&mut v, "/");
    }
    string_of(&v)
}

/// A status entry: `dir:name` or `file:name`.
pub fn status_entry(name: &str, is_dir: bool) -> (r: String)
    ensures
        r@ == if is_dir { "dir:"@ + name@ } else { "file:"@ + name@ },
{
    let mut v: Vec<char> = Vec::new();
    if is_dir {
        extend_str(&mut v, "dir:");
    } else {
        extend_str(&mut v, "file:");
    }
    extend_str(&mut v, name);
    string_of(&v)
}

/// A directory listing in name order.
pub fn sorted_listing(names: Vec<String>) -> (r: Vec<String>)
    ensures
        strings_view(r@).to_multiset() == strings_view(names@).to_multiset(),
        lex_sorted(strings_view(r@)),
{
    sort_strings(names)
}


} // verus!
