use snaggy::config::{config, Config};
use snaggy::fetch::{fetch_init, fetch_next, fetch_step, fetch_faces};
use snaggy::html::parse_page;
use snaggy::scan::{
    normalize_url, classify_favicon_probe, scan_assemble, proxy_data_uri, download_filename,
    ScanResult,
};

#[test]
fn normalize_prefixes_https_when_the_scheme_is_missing() {
    let u = normalize_url("example.com").unwrap();
    assert_eq!(u, "https://example.com/");
}

#[test]
fn normalize_keeps_an_explicit_scheme() {
    let u = normalize_url("http://example.com/page").unwrap();
    assert_eq!(u, "http://example.com/page");
}

#[test]
fn normalize_trims_surrounding_whitespace() {
    let u = normalize_url("  example.com/x  ").unwrap();
    assert_eq!(u, "https://example.com/x");
}

#[test]
fn normalize_rejects_unparseable_input() {
    assert!(normalize_url("http://[bad").is_err());
}

#[test]
fn probe_rejects_failure_status() {
    assert_eq!(classify_favicon_probe("https://e/favicon.ico", false, "image/x-icon"), None);
}

#[test]
fn probe_accepts_an_icon_content_type() {
    let f = classify_favicon_probe("https://e/favicon.ico", true, "image/x-icon").unwrap();
    assert_eq!(f.url, "https://e/favicon.ico");
    assert_eq!(f.rel, "icon");
    assert_eq!(f.sizes, None);
    assert_eq!(f.mime_type.as_deref(), Some("image/x-icon"));
}

#[test]
fn probe_defaults_the_type_when_the_header_is_absent() {
    let f = classify_favicon_probe("https://e/favicon.ico", true, "").unwrap();
    assert_eq!(f.mime_type.as_deref(), Some("image/x-icon"));
}

#[test]
fn probe_rejects_an_html_error_page() {
    assert_eq!(classify_favicon_probe("https://e/favicon.ico", true, "text/html"), None);
}

#[test]
fn data_uri_encodes_the_bytes() {
    let uri = proxy_data_uri(Some("image/gif"), &b"hi".to_vec());
    assert_eq!(uri, "data:image/gif;base64,aGk=");
}

#[test]
fn data_uri_defaults_to_png() {
    let uri = proxy_data_uri(None, &Vec::new());
    assert_eq!(uri, "data:image/png;base64,");
}

#[test]
fn filename_is_the_last_segment_without_the_query() {
    assert_eq!(download_filename("https://e/a/b/font.woff2?v=3"), "font.woff2");
    assert_eq!(download_filename("https://e/one.png"), "one.png");
    assert_eq!(download_filename("https://e/dir/"), "");
}

#[test]
fn default_config_values() {
    let c: Config = config();
    assert_eq!(c.timeout_global_secs, 30);
    assert_eq!(c.timeout_request_secs, 10);
    assert_eq!(c.timeout_probe_secs, 10);
    assert_eq!(c.timeout_image_secs, 10);
    assert_eq!(c.max_stylesheets, 20);
    assert_eq!(c.max_imports, 5);
    assert_eq!(c.max_redirects, 10);
    assert!(c.user_agent.contains("Mozilla/5.0"));
}

fn scan_fixture() -> ScanResult {
    // A fixed page and stylesheet bodies, no network.
    let html = "<html><head>\
        <link rel=\"icon\" href=\"/fav.png\">\
        <link rel=\"stylesheet\" href=\"site.css\">\
        <style>@font-face { font-family: Inline; src: url(inline.woff2); }</style>\
        </head></html>";
    let base = normalize_url("example.com").unwrap();
    let cfg = config();
    let page = parse_page(html, &base, cfg.max_stylesheets);

    let probe = match &page.favicon_ico_url {
        Some(u) => classify_favicon_probe(u, true, "image/x-icon"),
        None => None,
    };

    let mut st = fetch_init(page.css_urls.clone(), cfg.max_imports);
    while let Some(url) = fetch_next(&st) {
        let body = if url == "https://example.com/site.css" {
            Some("@font-face { font-family: Sheet; src: url(sheet.woff2); }")
        } else {
            None
        };
        fetch_step(&mut st, body);
    }
    let sheet_faces = fetch_faces(st);

    scan_assemble(base, page.favicons, probe, page.inline_faces, sheet_faces)
}

#[test]
fn a_fixed_page_scans_to_the_expected_catalog() {
    let r = scan_fixture();
    assert_eq!(r.url, "https://example.com/");
    assert_eq!(r.favicons.len(), 2);
    assert_eq!(r.favicons[0].url, "https://example.com/fav.png");
    assert_eq!(r.favicons[1].url, "https://example.com/favicon.ico");
    assert_eq!(r.favicons[1].rel, "icon");
    let families: Vec<&str> = r.fonts.iter().map(|f| f.family.as_str()).collect();
    assert_eq!(families, vec!["Inline", "Sheet"]);
    assert_eq!(r.fonts[0].variants[0].url, "https://example.com/inline.woff2");
    assert_eq!(r.fonts[1].variants[0].url, "https://example.com/sheet.woff2");
}

#[test]
fn scanning_the_same_fixture_twice_is_byte_identical() {
    let first = scan_fixture();
    let second = scan_fixture();
    assert_eq!(first, second);
}

#[test]
fn a_rejected_probe_adds_no_favicon() {
    let base = normalize_url("example.com").unwrap();
    let page = parse_page("<html></html>", &base, 20);
    let probe = match &page.favicon_ico_url {
        Some(u) => classify_favicon_probe(u, false, ""),
        None => None,
    };
    let r = scan_assemble(base, page.favicons, probe, page.inline_faces, Vec::new());
    assert_eq!(r.favicons.len(), 0);
}
