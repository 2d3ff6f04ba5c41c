use openlive::headless::{
    capture_file_name, find_browser_binary, has_extension, html_text, html_title, is_blocked_host,
    validate_public_url, PublicUrl, headless_browser_status, lab_media_path, lab_media_payload,
    media_mime, page_result, screenshot_size, select_lab_media, LabMediaItem, MAX_INLINE_BYTES,
};
use openlive::memory::{append_memory, empty_memory, MAX_MEMORY_ENTRIES};
use openlive::piper::{piper_status, resolve_piper_bin, BinCandidate, PiperProbe};
use openlive::sandbox::{
    check_read_size, check_write_size, delete_report, listing_name, sorted_listing, status_entry,
    workspace_relative, write_report,
};

#[test]
fn workspace_paths_are_relative_and_cannot_escape() {
    assert_eq!(workspace_relative("  /notes/a.txt "), Ok(Some("notes/a.txt".to_owned())));
    assert_eq!(workspace_relative("\\\\/"), Ok(None));
    assert_eq!(workspace_relative("a/../b"), Err("path must not contain ..".to_owned()));
}

#[test]
fn size_limits_and_reports() {
    assert!(check_write_size(&"x".repeat(262_144)).is_ok());
    assert_eq!(
        check_write_size(&"x".repeat(262_145)),
        Err("content too large (max 262144 bytes)".to_owned())
    );
    assert!(check_read_size(65_536).is_ok());
    assert_eq!(check_read_size(65_537), Err("file too large (max 65536 bytes)".to_owned()));
    assert_eq!(write_report(12, "/ws/a.txt"), "wrote 12 bytes to /ws/a.txt");
    assert_eq!(delete_report("a.txt"), "deleted a.txt");
    assert_eq!(listing_name("dir", true), "dir/");
    assert_eq!(status_entry("f", false), "file:f");
    assert_eq!(
        sorted_listing(vec!["b".to_owned(), "a/".to_owned(), "C".to_owned()]),
        vec!["C", "a/", "b"]
    );
}

#[test]
fn browser_status_reports_the_found_binary() {
    let cands = vec![("/nope/chrome".to_owned(), false), ("/usr/bin/chromium".to_owned(), true)];
    let bin = find_browser_binary(&cands);
    assert_eq!(bin.as_deref(), Some("/usr/bin/chromium"));
    let s = headless_browser_status(Some(("chromium".to_owned(), "/usr/bin/chromium".to_owned())));
    assert!(s.available);
    assert_eq!(s.engine, "system-headless");
    let none = headless_browser_status(None);
    assert!(!none.available);
    assert_eq!(none.browser, "none");
    assert!(find_browser_binary(&vec![]).is_none());
}

#[test]
fn capture_names_and_sizes() {
    assert_eq!(capture_file_name(Some("ex ample.com"), 17, "png"), "ex_ample.com-17.png");
    assert_eq!(capture_file_name(None, 0, "pdf"), "page-0.pdf");
    assert_eq!(screenshot_size(10, 10_000), (320, 4096));
    assert_eq!(screenshot_size(1280, 720), (1280, 720));
}

#[test]
fn lab_paths_are_restricted() {
    assert_eq!(lab_media_path("/lab\\screenshots\\a.png"), Ok("lab/screenshots/a.png".to_owned()));
    assert_eq!(lab_media_path("lab/pdfs/../x"), Err("path must not contain ..".to_owned()));
    assert_eq!(
        lab_media_path("workspace/a.png"),
        Err("only lab/screenshots/* and lab/pdfs/* are readable".to_owned())
    );
    assert_eq!(media_mime("lab/screenshots/a.PNG"), "image/png");
    assert_eq!(media_mime("lab/pdfs/a.pdf"), "application/pdf");
    assert_eq!(media_mime("lab/pdfs/a"), "application/octet-stream");
}

#[test]
fn lab_payload_is_base64_and_bounded() {
    let (b64, mime, n) = lab_media_payload("lab/screenshots/a.png", b"foo").expect("small");
    assert_eq!(b64, "Zm9v");
    assert_eq!(mime, "image/png");
    assert_eq!(n, 3);
    assert_eq!(
        lab_media_payload("lab/pdfs/a.pdf", &vec![0u8; MAX_INLINE_BYTES + 1]),
        Err("file too large to inline (max 4MB)".to_owned())
    );
}

#[test]
fn lab_media_is_listed_newest_first() {
    let item = |name: &str, m: u64| LabMediaItem {
        kind: "screenshot".to_owned(),
        name: name.to_owned(),
        relative_path: format!("lab/screenshots/{name}"),
        bytes: 1,
        modified_ms: m,
    };
    let picked = select_lab_media(vec![item("a", 1), item("b", 3), item("c", 2)], 2);
    let names: Vec<String> = picked.into_iter().map(|i| i.name).collect();
    assert_eq!(names, vec!["b", "c"]);
}

#[test]
fn page_reading_needs_html_and_text() {
    assert_eq!(
        page_result(10, "plenty of readable text here", None, "h", "u").err().as_deref(),
        Some("headless dump-dom returned little/no HTML")
    );
    assert_eq!(
        page_result(100, "short", None, "h", "u").err().as_deref(),
        Some("headless page had no readable text")
    );
    let (body, cite) = page_result(100, "plenty of readable text here", None, "host", "https://host/").expect("ok");
    assert_eq!(body, "host\n\nplenty of readable text here");
    assert_eq!(cite.title, "host");
    assert_eq!(cite.url, "https://host/");
}

#[test]
fn piper_status_explains_what_is_missing() {
    let probe = PiperProbe {
        data_dir: "/d".to_owned(),
        piper_bin: "/d/piper/piper".to_owned(),
        model_path: "/d/models/v.onnx".to_owned(),
        bin_present: true,
        model_present: false,
        libraries_present: true,
    };
    let s = piper_status(&probe);
    assert!(!s.available);
    assert_eq!(s.engine, "missing");
    assert_eq!(s.note, "Piper binary found but voice model missing. Run the install command.");
    let ready = piper_status(&PiperProbe { model_present: true, ..probe });
    assert!(ready.available);
    assert_eq!(ready.engine, "piper");
}

#[test]
fn piper_binary_needs_its_libraries() {
    let c = vec![
        BinCandidate { path: "/a".to_owned(), is_file: true, has_libraries: false },
        BinCandidate { path: "/b".to_owned(), is_file: true, has_libraries: true },
    ];
    assert_eq!(resolve_piper_bin(&c, "/fallback"), "/b");
    assert_eq!(resolve_piper_bin(&vec![], "/fallback"), "/fallback");
}

#[test]
fn memory_keeps_the_latest_entries() {
    let mut doc = empty_memory();
    assert_eq!(doc.version, 1);
    for i in 0..(MAX_MEMORY_ENTRIES as u64 + 5) {
        doc = append_memory(doc, "user", "hi", vec!["t".to_owned()], i);
    }
    assert_eq!(doc.entries.len(), MAX_MEMORY_ENTRIES);
    assert_eq!(doc.entries[0].id, "m5");
    assert_eq!(doc.entries[MAX_MEMORY_ENTRIES - 1].ts_ms, MAX_MEMORY_ENTRIES as u64 + 4);
}

#[test]
fn extensions_follow_the_file_name() {
    assert!(has_extension("lab/pdfs/report.PDF", "pdf"));
    assert!(has_extension("a.tar.gz", "GZ"));
    assert!(!has_extension("lab/.png", "png"));
    assert!(!has_extension("lab/png", "png"));
    assert!(!has_extension("lab.png/notes", "png"));
    assert!(has_extension("..png", "png"));
}

#[test]
fn browse_urls_must_be_public_http() {
    assert_eq!(validate_public_url("   "), Err("url is required".to_owned()));
    assert_eq!(validate_public_url("not a url"), Err("invalid url: relative URL without a base".to_owned()));
    assert_eq!(validate_public_url("ftp://example.com/x"), Err("only http/https URLs are allowed".to_owned()));
    let blocked = Err("host is blocked (private/local networks not allowed)".to_owned());
    assert_eq!(validate_public_url("http://localhost:8080/"), blocked);
    assert_eq!(validate_public_url("http://127.0.0.1/"), blocked);
    assert_eq!(validate_public_url("http://192.168.1.5/"), blocked);
    assert_eq!(validate_public_url("http://[::1]/"), blocked);
    assert_eq!(validate_public_url("http://172.20.0.1/"), blocked);
    assert_eq!(validate_public_url("http://printer.local/"), blocked);
    assert!(validate_public_url("http://172.32.0.1/").is_ok());
    assert_eq!(
        validate_public_url("  https://Example.COM/a "),
        Ok(PublicUrl {
            scheme: "https".to_owned(),
            host: "example.com".to_owned(),
            text: "https://example.com/a".to_owned(),
        })
    );
    assert!(!is_blocked_host("10.example.com"));
    assert!(is_blocked_host("10.0.0.1"));
}

#[test]
fn page_text_and_title_come_from_the_dom() {
    let dom = "<html><head><TITLE> Rust  Lang </TITLE></head><body><p>Hello,\n  world</p></body></html>";
    assert_eq!(html_text(dom), "Rust Lang Hello, world");
    assert_eq!(html_title(dom), Some("Rust  Lang".to_owned()));
    assert_eq!(html_title("<title>   </title>"), None);
    assert_eq!(html_title("<p>no title</p>"), None);
}
