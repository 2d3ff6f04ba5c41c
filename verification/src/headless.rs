//! The system headless browser's rules: what its status reports, how
//! capture files are named and sized, which lab media may be read back and
//! how they are listed, and what a rendered page yields.

use vstd::prelude::*;
use base64::Engine;
use crate::agent::Citation;
use crate::gateway::b64_encode;
use crate::provider::{parse_url, url_host, url_parse_failure, url_scheme, url_serialization};
use crate::order::{is_stable_order, key_before};
use crate::text::{
    chars_of, contains, contains_str, decimal, decimal_chars, extend_chars, extend_str, lower,
    opt_chars, replace_all, replace_chars, starts_with, starts_with_str, string_of, take_chars,
    take_prefix, to_lower, trim, trim_chars, trim_start_chars, trim_start_set, utf8_len,
    utf8_len_exact, chars_eq, ends_with, ends_with_chars, eq_str, collapse_ws, collapse_whitespace, find,
    first_occurrence, slice_chars, occurs_at,
};

verus! {

broadcast use vstd::seq_lib::group_seq_properties;

/// Whether a system Chromium-family browser can render pages.
#[derive(Debug, Clone, PartialEq, Eq)]
pub struct HeadlessBrowserStatus {
    pub available: bool,
    pub browser: String,
    pub binary: String,
    pub engine: String,
    pub note: String,
}

/// The first candidate browser binary that exists as a file.
pub open spec fn first_file(cs: Seq<(String, bool)>) -> Option<Seq<char>>
    decreases cs.len(),
{
    if cs.len() == 0 {
        None
    } else if cs[0].1 {
        Some(cs[0].0@)
    } else {
        first_file(cs.drop_first())
    }
}

/// The browser binary to use: the first candidate path (in search order)
/// that the file system shows to be a file.
pub fn find_browser_binary(candidates: &Vec<(String, bool)>) -> (r: Option<String>)
    ensures
        opt_chars(r) == first_file(candidates@),
{
    let mut i: usize = 0;
    assert(candidates@.skip(0) =~= candidates@);
    while i < candidates.len()
        invariant
            i <= candidates@.len(),
            first_file(candidates@) == first_file(candidates@.skip(i as int)),
        decreases candidates@.len() - i,
    {
        assert(candidates@.skip(i as int)[0] == candidates@[i as int]);
        assert(candidates@.skip(i as int).drop_first() =~= candidates@.skip(i + 1));
        if candidates[i].1 {
            return Some(candidates[i].0.clone());
        }
        i = i + 1;
    }
    assert(candidates@.skip(i as int) =~= Seq::<(String, bool)>::empty());
    None
}

/// The status for the browser found (its file name and path), if any.
pub fn headless_browser_status(found: Option<(String, String)>) -> (s: HeadlessBrowserStatus)
    ensures
        match found {
            Some((name, path)) => s.available && s.browser == name && s.binary == path && s.engine@
                == "system-headless"@ && s.note@
                == "Chrome/Edge headless dump-dom is available for JS-rendered pages."@,
            None => !s.available && s.browser@ == "none"@ && s.binary@.len() == 0 && s.engine@
                == "http"@ && s.note@
                == "No Chrome/Edge found. browse_url uses HTTP fetch only. Set OPENLIVE_BROWSER to a chromium binary."@,
        },
{
    match found {
        Some((name, path)) => HeadlessBrowserStatus {
            available: true,
            browser: name,
            binary: path,
            engine: "system-headless".to_owned(),
            note: "Chrome/Edge headless dump-dom is available for JS-rendered pages.".to_owned(),
        },
        None => HeadlessBrowserStatus {
            available: false,
            browser: "none".to_owned(),
            binary: String::new(),
            engine: "http".to_owned(),
            note: "No Chrome/Edge found. browse_url uses HTTP fetch only. Set OPENLIVE_BROWSER to a chromium binary.".to_owned(),
        },
    }
}

#[derive(Debug, Clone)]
pub struct HeadlessScreenshotResult {
    pub path: String,
    pub relative_path: String,
    pub url: String,
    pub bytes: u64,
    pub width: u32,
    pub height: u32,
    pub browser: String,
}

#[derive(Debug, Clone)]
pub struct HeadlessPdfResult {
    pub path: String,
    pub relative_path: String,
    pub url: String,
    pub bytes: u64,
    pub browser: String,
}

/// A capture kept under the sandbox lab.
#[derive(Debug, Clone, PartialEq, Eq)]
pub struct LabMediaItem {
    /// `screenshot` or `pdf`.
    pub kind: String,
    pub name: String,
    pub relative_path: String,
    pub bytes: u64,
    pub modified_ms: u64,
}

/// A host name made safe for a file name: ASCII letters, digits, `-` and
/// `.` kept, anything else `_`.
pub open spec fn safe_host(host: Seq<char>) -> Seq<char> {
    Seq::new(
        host.len(),
        |i: int|
            if ('a' <= host[i] && host[i] <= 'z') || ('A' <= host[i] && host[i] <= 'Z') || ('0'
                <= host[i] && host[i] <= '9') || host[i] == '-' || host[i] == '.' {
                host[i]
            } else {
                '_'
            },
    )
}

/// The file name of a capture: `{safe host}-{seconds}.{ext}` (host `page`
/// when the URL has none).
pub open spec fn capture_name(host: Option<Seq<char>>, secs: u64, ext: Seq<char>) -> Seq<char> {
    let h = match host {
        Some(x) => x,
        None => "page"@,
    };
    safe_host(h) + "-"@ + decimal(secs as nat) + "."@ + ext
}

/// The file name a capture is saved under.
pub fn capture_file_name(host: Option<&str>, secs: u64, ext: &str) -> (r: String)
    ensures
        r@ == capture_name(
            match host {
                Some(x) => Some(x@),
                None => None,
            },
            secs,
            ext@,
        ),
{
    let h = match host {
        Some(x) => chars_of(x),
        None => chars_of("page"),
    };
    let mut v: Vec<char> = Vec::new();
    let mut i: usize = 0;
    while i < h.len()
        invariant
            i <= h@.len(),
            v@ == safe_host(h@).take(i as int),
        decreases h@.len() - i,
    {
        let c = h[i];
        let keep = ('a' <= c && c <= 'z') || ('A' <= c && c <= 'Z') || ('0' <= c && c <= '9') || c
            == '-' || c == '.';
        v.push(if keep { c } else { '_' });
        i = i + 1;
        assert(v@ =~= safe_host(h@).take(i as int));
    }
    assert(safe_host(h@).take(i as int) =~= safe_host(h@));
    extend_str(&mut v, "-");
    let d = decimal_chars(secs);
    extend_chars(&mut v, &d);
    extend_str(&mut v, ".");
    extend_str(&mut v, ext);
    string_of(&v)
}

/// A screenshot window clamped to 320..=2560 by 240..=4096 pixels.
pub fn screenshot_size(width: u32, height: u32) -> (r: (u32, u32))
    ensures
        r.0 == if width < 320 { 320 } else if width > 2560 { 2560 } else { width },
        r.1 == if height < 240 { 240 } else if height > 4096 { 4096 } else { height },
{
    let w = if width < 320 {
        320
    } else if width > 2560 {
        2560
    } else {
        width
    };
    let h = if height < 240 {
        240
    } else if height > 4096 {
        4096
    } else {
        height
    };
    (w, h)
}

/// A lab media path as requested: trimmed, leading separators dropped,
/// backslashes turned into slashes; only screenshots and PDFs under the lab
/// may be read.
pub open spec fn lab_path(rel: Seq<char>) -> Result<Seq<char>, Seq<char>> {
    let r = replace_all(trim_start_set(trim(rel), seq!['/', '\\']), seq!['\\'], seq!['/']);
    if contains(r, ".."@) {
        Err("path must not contain .."@)
    } else if starts_with(r, "lab/screenshots/"@) || starts_with(r, "lab/pdfs/"@) {
        Ok(r)
    } else {
        Err("only lab/screenshots/* and lab/pdfs/* are readable"@)
    }
}

/// Checks a lab media path.
pub fn lab_media_path(rel: &str) -> (r: Result<String, String>)
    ensures
        match (r, lab_path(rel@)) {
            (Ok(a), Ok(b)) => a@ == b,
            (Err(a), Err(b)) => a@ == b,
            _ => false,
        },
{
    let seps: [char; 2] = ['/', '\\'];
    assert(seps@ =~= seq!['/', '\\']);
    let t = trim_start_chars(&trim_chars(&chars_of(rel)), &seps);
    let mut back: Vec<char> = Vec::new();
    back.push('\\');
    let mut fwd: Vec<char> = Vec::new();
    fwd.push('/');
    assert(back@ =~= seq!['\\']);
    assert(fwd@ =~= seq!['/']);
    let r = replace_chars(&t, &back, &fwd);
    if contains_str(&r, "..") {
        return Err("path must not contain ..".to_owned());
    }
    if starts_with_str(&r, "lab/screenshots/") || starts_with_str(&r, "lab/pdfs/") {
        Ok(string_of(&r))
    } else {
        Err("only lab/screenshots/* and lab/pdfs/* are readable".to_owned())
    }
}

/// What follows the last `c` in `s` (all of `s` when it holds none).
pub open spec fn after_last(s: Seq<char>, c: char) -> Seq<char>
    decreases s.len(),
{
    if s.len() == 0 {
        s
    } else if s.last() == c {
        Seq::empty()
    } else {
        after_last(s.drop_last(), c).push(s.last())
    }
}

/// A relative path whose components every platform splits alike: not
/// empty, no `\\` and no `:` (Windows separators and prefixes), not
/// starting or ending with `/`, and a last component other than `.` and
/// `..`. Its file name is then what follows the last `/`.
pub open spec fn plain_relative_path(p: Seq<char>) -> bool {
    &&& p.len() > 0
    &&& !p.contains('\\')
    &&& !p.contains(':')
    &&& p[0] != '/'
    &&& p.last() != '/'
    &&& after_last(p, '/') != "."@
    &&& after_last(p, '/') != ".."@
}

/// The extension `Path::extension` documents for a file name: none without
/// an embedded `.`, none when the only `.` begins the name, else what
/// follows the final `.`.
pub open spec fn file_name_extension(name: Seq<char>) -> Option<Seq<char>> {
    let e = after_last(name, '.');
    if !name.contains('.') || name.len() - e.len() - 1 == 0 {
        None
    } else {
        Some(e)
    }
}

/// `std::path::Path::extension` of `path`, as a string. Which part is the
/// extension follows the platform's path syntax (`\\` separates components
/// and `C:` starts a prefix only on Windows), so the result is stated only
/// for plain relative paths, which every platform splits at `/` alike; of
/// other paths nothing is stated.
#[verifier::external_body]
fn path_extension(path: &str) -> (r: Option<String>)
    ensures
        plain_relative_path(path@) ==> opt_chars(r) == file_name_extension(after_last(path@, '/')),
{
    std::path::Path::new(path).extension().map(|e| e.to_string_lossy().into_owned())
}

/// Whether a found extension is `ext`, ignoring ASCII case.
pub fn extension_matches(found: Option<&str>, ext: &str) -> (r: bool)
    ensures
        r == match found {
            Some(e) => lower(e@) == lower(ext@),
            None => false,
        },
{
    match found {
        Some(e) => chars_eq(&to_lower(&chars_of(e)), &to_lower(&chars_of(ext))),
        None => false,
    }
}

/// The file name of a plain relative path has the extension `ext`, ASCII
/// case ignored.
pub open spec fn extension_is(path: Seq<char>, ext: Seq<char>) -> bool {
    match file_name_extension(after_last(path, '/')) {
        Some(e) => lower(e) == lower(ext),
        None => false,
    }
}

/// Whether the path's extension is `ext` (ASCII case ignored), as the
/// platform's path rules find the extension.
pub fn has_extension(path: &str, ext: &str) -> (r: bool)
    ensures
        plain_relative_path(path@) ==> r == extension_is(path@, ext@),
{
    let found = path_extension(path);
    match &found {
        Some(e) => extension_matches(Some(e.as_str()), ext),
        None => extension_matches(None, ext),
    }
}

/// Largest lab file inlined as base64, in bytes.
pub const MAX_INLINE_BYTES: usize = 4_194_304;

/// `STANDARD.encode(bytes)` of the `base64` crate: the standard alphabet
/// with `=` padding, as the crate documents `STANDARD` (the same text
/// `b64_encode` states).
#[verifier::external_body]
fn base64_encode_standard(bytes: &[u8]) -> (r: String)
    ensures
        r@ == b64_encode(bytes@),
{
    base64::engine::general_purpose::STANDARD.encode(bytes)
}

/// The MIME type served for a lab file, by the extension the platform finds.
pub fn media_mime(rel: &str) -> (m: &'static str)
    ensures
        m@ == "image/png"@ || m@ == "application/pdf"@ || m@ == "application/octet-stream"@,
        plain_relative_path(rel@) ==> m@ == (if extension_is(rel@, "png"@) {
            "image/png"@
        } else if extension_is(rel@, "pdf"@) {
            "application/pdf"@
        } else {
            "application/octet-stream"@
        }),
{
    if has_extension(rel, "png") {
        "image/png"
    } else if has_extension(rel, "pdf") {
        "application/pdf"
    } else {
        "application/octet-stream"
    }
}

/// A lab file inlined: base64 text, MIME type and size; refused over 4 MB.
pub fn lab_media_payload(rel: &str, bytes: &[u8]) -> (r: Result<(String, String, u64), String>)
    ensures
        r is Ok <==> bytes@.len() <= MAX_INLINE_BYTES,
        r matches Err(e) ==> e@ == "file too large to inline (max 4MB)"@,
        r matches Ok(p) ==> p.0@ == b64_encode(bytes@) && p.2 == bytes@.len(),
{
    if bytes.len() > MAX_INLINE_BYTES {
        return Err("file too large to inline (max 4MB)".to_owned());
    }
    let mime = media_mime(rel);
    (Ok((base64_encode_standard(bytes), mime.to_owned(), bytes.len() as u64)))
}

/// The modification times, position by position.
pub open spec fn modified_keys(s: Seq<LabMediaItem>) -> Seq<u64> {
    s.map_values(|m: LabMediaItem| m.modified_ms)
}

/// The clamp of a listing limit to `1..=100`.
pub open spec fn lab_limit(limit: usize) -> int {
    if limit < 1 {
        1
    } else if limit > 100 {
        100
    } else {
        limit as int
    }
}

/// The most recent lab captures: newest first (equal times keep their
/// order), at most `limit` (clamped to 1..=100).
pub fn select_lab_media(items: Vec<LabMediaItem>, limit: usize) -> (r: Vec<LabMediaItem>)
    ensures
        exists|order: Seq<int>|
            is_stable_order(order, modified_keys(items@), true) && r@ == order.map_values(
                |i: int| items@[i],
            ).take(if items@.len() < lab_limit(limit) { items@.len() as int } else { lab_limit(limit) }),
{
    let n: usize = if limit < 1 {
        1
    } else if limit > 100 {
        100
    } else {
        limit
    };
    let ghost v0 = items@;
    let ghost keys = modified_keys(items@);
    let n0: usize = items.len();
    let mut work = items;
    let mut ids: Vec<usize> = Vec::new();
    let mut i: usize = 0;
    while i < n0
        invariant
            n0 == v0.len(),
            i <= n0,
            ids@.len() == i,
            forall|j: int| 0 <= j < i ==> ids@[j] == j,
        decreases n0 - i,
    {
        ids.push(i);
        i = i + 1;
    }
    let ghost mut out_ids: Seq<int> = Seq::empty();
    proof {
        assert forall|x: int| 0 <= x < n0 implies out_ids.contains(x) || ids@.contains(x as usize) by {
            assert(ids@[x] == x as usize);
        }
    }
    let mut out: Vec<LabMediaItem> = Vec::new();
    while work.len() > 0
        invariant
            n0 == v0.len(),
            keys == modified_keys(v0),
            out@.len() + work@.len() == n0,
            work@.len() == ids@.len(),
            out@.len() == out_ids.len(),
            forall|j: int| 0 <= j < ids@.len() ==> (#[trigger] ids@[j]) < n0 && work@[j] == v0[ids@[j] as int],
            forall|a: int| 0 <= a < out_ids.len() ==> 0 <= (#[trigger] out_ids[a]) < n0 && out@[a] == v0[out_ids[a]],
            forall|j: int, k: int| 0 <= j < k < ids@.len() ==> (#[trigger] ids@[j]) != (#[trigger] ids@[k]),
            forall|x: int| 0 <= x < n0 ==> out_ids.contains(x) || ids@.contains(x as usize),
            forall|a: int, b: int| 0 <= a < b < out_ids.len() ==> key_before(keys, true, #[trigger] out_ids[a], #[trigger] out_ids[b]),
            forall|a: int, b: int| 0 <= a < out_ids.len() && 0 <= b < ids@.len() ==> key_before(keys, true, #[trigger] out_ids[a], #[trigger] ids@[b] as int),
        decreases work@.len(),
    {
        let mut best: usize = 0;
        let mut k: usize = 1;
        while k < work.len()
            invariant
                work@.len() == ids@.len(),
                0 <= best < k <= work@.len(),
                keys == modified_keys(v0),
                forall|j: int| 0 <= j < ids@.len() ==> (#[trigger] ids@[j]) < n0 && work@[j] == v0[ids@[j] as int],
                n0 == v0.len(),
                forall|j: int, m: int| 0 <= j < m < ids@.len() ==> (#[trigger] ids@[j]) != (#[trigger] ids@[m]),
                forall|j: int| 0 <= j < k && j != best ==> key_before(keys, true, ids@[best as int] as int, #[trigger] ids@[j] as int),
            decreases work@.len() - k,
        {
            if work[k].modified_ms > work[best].modified_ms || (work[k].modified_ms == work[best].modified_ms && ids[k] < ids[best]) {
                proof {
                    assert forall|j: int| 0 <= j < k + 1 && j != k implies key_before(keys, true, ids@[k as int] as int, #[trigger] ids@[j] as int) by {
                        if j != best {
                            assert(key_before(keys, true, ids@[best as int] as int, ids@[j] as int));
                        }
                        assert(keys[ids@[k as int] as int] == work@[k as int].modified_ms);
                        assert(keys[ids@[best as int] as int] == work@[best as int].modified_ms);
                        assert(keys[ids@[j] as int] == work@[j].modified_ms);
                    }
                }
                best = k;
            } else {
                proof {
                    assert(keys[ids@[k as int] as int] == work@[k as int].modified_ms);
                    assert(keys[ids@[best as int] as int] == work@[best as int].modified_ms);
                    assert(ids@[k as int] != ids@[best as int]);
                }
            }
            k = k + 1;
        }
        let ghost w0 = work@;
        let ghost i0 = ids@;
        let a = work.remove(best);
        let id = ids.remove(best);
        proof {
            let no = out_ids.push(id as int);
            assert forall|x: int| 0 <= x < n0 implies no.contains(x) || ids@.contains(x as usize) by {
                if out_ids.contains(x) {
                    let p = choose|p: int| 0 <= p < out_ids.len() && out_ids[p] == x;
                    assert(no[p] == x);
                } else {
                    let p = choose|p: int| 0 <= p < i0.len() && i0[p] == x as usize;
                    if p == best {
                        assert(no[out_ids.len() as int] == x);
                    } else if p < best {
                        assert(ids@[p] == x as usize);
                    } else {
                        assert(ids@[p - 1] == x as usize);
                    }
                }
            }
            assert forall|x: int, y: int| 0 <= x < no.len() && 0 <= y < ids@.len() implies key_before(keys, true, #[trigger] no[x], #[trigger] ids@[y] as int) by {
                let y2 = if y < best { y } else { y + 1 };
                assert(ids@[y] == i0[y2]);
                if x == out_ids.len() {
                    assert(y2 != best);
                }
            }
            assert forall|x: int, y: int| 0 <= x < y < no.len() implies key_before(keys, true, #[trigger] no[x], #[trigger] no[y]) by {
                if y == out_ids.len() {
                    assert(no[y] == i0[best as int] as int);
                }
            }
            assert forall|j: int, m: int| 0 <= j < m < ids@.len() implies (#[trigger] ids@[j]) != (#[trigger] ids@[m]) by {
                let j2 = if j < best { j } else { j + 1 };
                let m2 = if m < best { m } else { m + 1 };
                assert(ids@[j] == i0[j2] && ids@[m] == i0[m2]);
            }
            assert forall|j: int| 0 <= j < ids@.len() implies (#[trigger] ids@[j]) < n0 && work@[j] == v0[ids@[j] as int] by {
                let j2 = if j < best { j } else { j + 1 };
                assert(ids@[j] == i0[j2] && work@[j] == w0[j2]);
            }
            assert(w0[best as int] == a);
            out_ids = no;
        }
        out.push(a);
    }
    proof {
        assert forall|x: int| 0 <= x < keys.len() implies #[trigger] out_ids.contains(x) by {
            if ids@.contains(x as usize) {
                let p = choose|p: int| 0 <= p < ids@.len() && ids@[p] == x as usize;
            }
        }
        assert(out@ =~= out_ids.map_values(|i: int| v0[i]));
        assert(is_stable_order(out_ids, keys, true));
    }
    let ghost all = out@;
    out.truncate(n);
    assert(out@ == all.take(if all.len() < n { all.len() as int } else { n as int }));
    out
}

/// What a rendered page yields: refused when the DOM dump is under 40
/// bytes or its readable text under 20 bytes; else the title (the host when
/// the page has none) above the first 2200 characters, and a citation with
/// the first 220 characters.
pub open spec fn page_reading(
    dom_len: nat,
    text: Seq<char>,
    title: Option<Seq<char>>,
    host: Seq<char>,
    url: Seq<char>,
) -> Result<(Seq<char>, (Seq<char>, Seq<char>, Seq<char>)), Seq<char>> {
    if dom_len < 40 {
        Err("headless dump-dom returned little/no HTML"@)
    } else if utf8_len(text) < 20 {
        Err("headless page had no readable text"@)
    } else {
        let t = match title {
            Some(x) => x,
            None => host,
        };
        Ok((t + "\n\n"@ + take_chars(text, 2200), (t, url, take_chars(text, 220))))
    }
}

/// The reading of a rendered page from its DOM size, readable text and title.
pub fn page_result(dom_len: usize, text: &str, title: Option<String>, host: &str, url: &str) -> (r: Result<(String, Citation), String>)
    ensures
        match (r, page_reading(dom_len as nat, text@, opt_chars(title), host@, url@)) {
            (Ok((body, c)), Ok((b, (ct, cu, cs)))) => body@ == b && c.title@ == ct && c.url@ == cu
                && c.snippet@ == cs,
            (Err(e), Err(f)) => e@ == f,
            _ => false,
        },
{
    if dom_len < 40 {
        return Err("headless dump-dom returned little/no HTML".to_owned());
    }
    let tv = chars_of(text);
    if utf8_len_exact(&tv) < 20 {
        return Err("headless page had no readable text".to_owned());
    }
    let t = match title {
        Some(x) => x,
        None => host.to_owned(),
    };
    let mut body: Vec<char> = chars_of(t.as_str());
    extend_str(&mut body, "\n\n");
    let head = take_prefix(&tv, 2200);
    extend_chars(&mut body, &head);
    let snippet = string_of(&take_prefix(&tv, 220));
    Ok((string_of(&body), Citation { title: t, url: url.to_owned(), snippet }))
}

/// The characters of `s` outside markup tags (`<` to `>`), reading from the
/// front; `inside` tells whether a tag is open.
pub open spec fn outside_tags(s: Seq<char>, inside: bool) -> Seq<char>
    decreases s.len(),
{
    if s.len() == 0 {
        s
    } else if inside {
        outside_tags(s.drop_first(), s[0] != '>')
    } else if s[0] == '<' {
        outside_tags(s.drop_first(), true)
    } else {
        seq![s[0]] + outside_tags(s.drop_first(), false)
    }
}

/// The readable text of a page: its markup tags dropped, whitespace runs
/// joined into single spaces.
pub open spec fn page_text(dom: Seq<char>) -> Seq<char> {
    collapse_ws(outside_tags(dom, false))
}

/// The readable text of a rendered page.
pub fn html_text(dom: &str) -> (r: String)
    ensures
        r@ == page_text(dom@),
{
    let v = chars_of(dom);
    let mut out: Vec<char> = Vec::new();
    let mut inside = false;
    let mut i: usize = 0;
    assert(v@.skip(0) =~= v@);
    while i < v.len()
        invariant
            i <= v@.len(),
            outside_tags(v@, false) == out@ + outside_tags(v@.skip(i as int), inside),
        decreases v@.len() - i,
    {
        let ghost rest = v@.skip(i as int);
        assert(rest[0] == v@[i as int]);
        assert(rest.drop_first() =~= v@.skip(i + 1));
        let c = v[i];
        if inside {
            inside = c != '>';
        } else if c == '<' {
            inside = true;
        } else {
            let ghost before = out@;
            out.push(c);
            assert(before + (seq![c] + outside_tags(v@.skip(i + 1), false)) =~= out@ + outside_tags(
                v@.skip(i + 1),
                false,
            ));
        }
        i = i + 1;
    }
    assert(v@.skip(i as int) =~= Seq::<char>::empty());
    assert(out@ + Seq::<char>::empty() =~= out@);
    string_of(&collapse_whitespace(&out))
}

/// The title of a page: what stands between the first `<title>` and the
/// next `</title>` (tags matched in any ASCII case), trimmed; none when
/// either tag is missing or the title is blank.
pub open spec fn page_title(dom: Seq<char>) -> Option<Seq<char>> {
    let l = lower(dom);
    match first_occurrence(l, "<title>"@) {
        None => None,
        Some(a) => {
            let st = a + 7;
            match first_occurrence(l.skip(st), "</title>"@) {
                None => None,
                Some(b) => {
                    let t = trim(dom.subrange(st, st + b));
                    if t.len() == 0 {
                        None
                    } else {
                        Some(t)
                    }
                },
            }
        },
    }
}

/// The title of a rendered page.
pub fn html_title(dom: &str) -> (r: Option<String>)
    ensures
        opt_chars(r) == page_title(dom@),
{
    let v = chars_of(dom);
    let l = to_lower(&v);
    let open = chars_of("<title>");
    match find(&l, &open) {
        None => None,
        Some(a) => {
            let n = l.len();
            proof {
                reveal_strlit("<title>");
                reveal_strlit("</title>");
                assert(open@.len() == 7);
                assert(occurs_at(l@, open@, a as int));
                assert(a + 7 <= l@.len());
            }
            let st = a + 7;
            let rest = slice_chars(&l, st, n);
            assert(rest@ =~= l@.skip(st as int));
            let close = chars_of("</title>");
            match find(&rest, &close) {
                None => None,
                Some(b) => {
                    let t = trim_chars(&slice_chars(&v, st, st + b));
                    if t.len() == 0 {
                        None
                    } else {
                        Some(string_of(&t))
                    }
                },
            }
        },
    }
}

/// IPv4 networks a browse may not reach: loopback, private, link-local and
/// "this network" (as dotted-decimal prefixes).
pub open spec fn private_v4_prefixes() -> Seq<Seq<char>> {
    seq!["127."@, "10."@, "0."@, "169.254."@, "192.168."@, "172.16."@, "172.17."@, "172.18."@, "172.19."@, "172.20."@, "172.21."@, "172.22."@, "172.23."@, "172.24."@, "172.25."@, "172.26."@, "172.27."@, "172.28."@, "172.29."@, "172.30."@, "172.31."@]
}

/// A host the `url` crate wrote as an IPv4 address (digits and dots only).
pub open spec fn is_ipv4_text(h: Seq<char>) -> bool {
    h.len() > 0 && forall|i: int| 0 <= i < h.len() ==> ('0' <= #[trigger] h[i] && h[i] <= '9') || h[i] == '.'
}

/// A (lowercased) host that names this machine or a private or local
/// network: `localhost` and `*.localhost`, `*.local`, `*.internal`, the
/// IPv6 loopback, unspecified, unique-local, link-local and IPv4-mapped
/// forms, and IPv4 loopback, private, link-local and `0.*` addresses.
pub open spec fn blocked_host(h: Seq<char>) -> bool {
    ||| h == "localhost"@
    ||| ends_with(h, ".localhost"@)
    ||| ends_with(h, ".local"@)
    ||| ends_with(h, ".internal"@)
    ||| h == "[::1]"@
    ||| h == "[::]"@
    ||| starts_with(h, "[fc"@)
    ||| starts_with(h, "[fd"@)
    ||| starts_with(h, "[fe80:"@)
    ||| starts_with(h, "[::ffff:"@)
    ||| (is_ipv4_text(h) && exists|k: int| 0 <= k < private_v4_prefixes().len() && starts_with(h, #[trigger] private_v4_prefixes()[k]))
}

fn ipv4_text(h: &Vec<char>) -> (r: bool)
    ensures
        r == is_ipv4_text(h@),
{
    if h.len() == 0 {
        return false;
    }
    let mut i: usize = 0;
    while i < h.len()
        invariant
            i <= h@.len(),
            forall|j: int| 0 <= j < i ==> ('0' <= #[trigger] h@[j] && h@[j] <= '9') || h@[j] == '.',
        decreases h@.len() - i,
    {
        let c = h[i];
        if !(('0' <= c && c <= '9') || c == '.') {
            return false;
        }
        i = i + 1;
    }
    true
}

/// Whether a lowercased host is on the block list.
pub fn is_blocked_host(h: &str) -> (r: bool)
    ensures
        r == blocked_host(h@),
{
    let v = chars_of(h);
    if eq_str(&v, "localhost") || ends_with_chars(&v, &chars_of(".localhost")) || ends_with_chars(&v, &chars_of(".local"))
        || ends_with_chars(&v, &chars_of(".internal")) || eq_str(&v, "[::1]") || eq_str(&v, "[::]")
        || starts_with_str(&v, "[fc") || starts_with_str(&v, "[fd") || starts_with_str(&v, "[fe80:")
        || starts_with_str(&v, "[::ffff:") {
        return true;
    }
    if !ipv4_text(&v) {
        return false;
    }
    let prefixes: [&str; 21] = ["127.", "10.", "0.", "169.254.", "192.168.", "172.16.", "172.17.", "172.18.", "172.19.", "172.20.", "172.21.", "172.22.", "172.23.", "172.24.", "172.25.", "172.26.", "172.27.", "172.28.", "172.29.", "172.30.", "172.31."];
    assert(forall|k: int| 0 <= k < 21 ==> (#[trigger] private_v4_prefixes()[k]) == prefixes@[k]@);
    let mut k: usize = 0;
    while k < 21
        invariant
            k <= 21,
            v@ == h@,
            is_ipv4_text(h@),
            private_v4_prefixes().len() == 21,
            forall|m: int| 0 <= m < 21 ==> (#[trigger] private_v4_prefixes()[m]) == prefixes@[m]@,
            forall|m: int| 0 <= m < k ==> !starts_with(h@, #[trigger] private_v4_prefixes()[m]),
        decreases 21 - k,
    {
        if starts_with_str(&v, prefixes[k]) {
            assert(starts_with(h@, private_v4_prefixes()[k as int]));
            return true;
        }
        k = k + 1;
    }
    false
}

/// A URL a browse may open: its scheme, its lowercased host and its
/// serialised text.
#[derive(Debug, Clone, PartialEq, Eq)]
pub struct PublicUrl {
    pub scheme: String,
    pub host: String,
    pub text: String,
}

/// What checking a browse URL gives: refused when the trimmed text is
/// empty, does not parse, is not http(s), has no host, or names a blocked
/// host (in that order); else scheme, lowercased host and serialised URL.
pub open spec fn public_url_outcome(url: Seq<char>) -> Result<(Seq<char>, Seq<char>, Seq<char>), Seq<char>> {
    let t = trim(url);
    if t.len() == 0 {
        Err("url is required"@)
    } else {
        match url_parse_failure(t) {
            Some(e) => Err("invalid url: "@ + e),
            None => if url_scheme(t) != "http"@ && url_scheme(t) != "https"@ {
                Err("only http/https URLs are allowed"@)
            } else {
                let h = lower(
                    match url_host(t) {
                        Some(h) => h,
                        None => Seq::empty(),
                    },
                );
                if h.len() == 0 {
                    Err("url missing host"@)
                } else if blocked_host(h) {
                    Err("host is blocked (private/local networks not allowed)"@)
                } else {
                    Ok((url_scheme(t), h, url_serialization(t)))
                }
            },
        }
    }
}

/// Checks a URL before a browse opens it (a guard against reaching the
/// machine itself or private networks).
pub fn validate_public_url(url: &str) -> (r: Result<PublicUrl, String>)
    ensures
        match (r, public_url_outcome(url@)) {
            (Ok(p), Ok(v)) => p.scheme@ == v.0 && p.host@ == v.1 && p.text@ == v.2,
            (Err(e), Err(m)) => e@ == m,
            _ => false,
        },
{
    let tv = trim_chars(&chars_of(url));
    if tv.len() == 0 {
        return Err("url is required".to_owned());
    }
    let t = string_of(&tv);
    let parts = match parse_url(t.as_str()) {
        Err(e) => {
            let mut v: Vec<char> = Vec::new();
            extend_str(&mut v, "invalid url: ");
            extend_str(&mut v, e.as_str());
            return Err(string_of(&v));
        },
        Ok(p) => p,
    };
    let scheme = chars_of(parts.scheme.as_str());
    if !eq_str(&scheme, "http") && !eq_str(&scheme, "https") {
        return Err("only http/https URLs are allowed".to_owned());
    }
    let raw = match &parts.host {
        Some(h) => chars_of(h.as_str()),
        None => Vec::new(),
    };
    let host = to_lower(&raw);
    if host.len() == 0 {
        return Err("url missing host".to_owned());
    }
    let host = string_of(&host);
    if is_blocked_host(host.as_str()) {
        return Err("host is blocked (private/local networks not allowed)".to_owned());
    }
    Ok(PublicUrl { scheme: parts.scheme, host, text: parts.text })
}

} // verus!
