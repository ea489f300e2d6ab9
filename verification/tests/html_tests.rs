use snaggy::html::parse_page;

const BASE: &str = "https://example.com/page/";

#[test]
fn finds_favicon_links_and_keeps_attributes() {
    let html = "<html><head>\
        <link rel=\"icon\" href=\"/fav.png\" sizes=\"32x32\" type=\"image/png\">\
        <link rel=\"apple-touch-icon\" href=\"/touch.png\">\
        <link rel=\"stylesheet\" href=\"/main.css\">\
        </head><body></body></html>";
    let page = parse_page(html, "https://example.com/", 20);
    assert_eq!(page.favicons.len(), 2);
    assert_eq!(page.favicons[0].url, "https://example.com/fav.png");
    assert_eq!(page.favicons[0].rel, "icon");
    assert_eq!(page.favicons[0].sizes.as_deref(), Some("32x32"));
    assert_eq!(page.favicons[0].mime_type.as_deref(), Some("image/png"));
    assert_eq!(page.favicons[1].rel, "apple-touch-icon");
}

#[test]
fn rel_matching_is_case_insensitive_and_recorded_lowercased() {
    let html = "<link rel=\"ICON\" href=\"/f.ico\">";
    let page = parse_page(html, "https://example.com/", 20);
    assert_eq!(page.favicons.len(), 1);
    assert_eq!(page.favicons[0].rel, "icon");
}

#[test]
fn favicons_deduplicated_by_resolved_url_first_wins() {
    let html = "<link rel=\"icon\" href=\"/f.ico\" sizes=\"16x16\">\
                <link rel=\"shortcut icon\" href=\"https://example.com/f.ico\">";
    let page = parse_page(html, "https://example.com/", 20);
    assert_eq!(page.favicons.len(), 1);
    assert_eq!(page.favicons[0].sizes.as_deref(), Some("16x16"));
}

#[test]
fn implicit_favicon_candidate_from_scheme_and_host() {
    let page = parse_page("<html></html>", "https://example.com/deep/path", 20);
    assert_eq!(page.favicon_ico_url.as_deref(), Some("https://example.com/favicon.ico"));
}

#[test]
fn implicit_favicon_suppressed_when_already_linked() {
    let html = "<link rel=\"icon\" href=\"/favicon.ico\">";
    let page = parse_page(html, "https://example.com/", 20);
    assert_eq!(page.favicon_ico_url, None);
}

#[test]
fn stylesheet_links_resolved_in_document_order() {
    let html = "<link rel=\"stylesheet\" href=\"a.css\">\
                <link rel=\"preload\" as=\"style\" href=\"b.css\">\
                <link rel=\"preload\" as=\"font\" href=\"c.woff2\">\
                <link rel=\"stylesheet\" href=\"https://cdn.example.net/d.css\">";
    let page = parse_page(html, BASE, 20);
    assert_eq!(
        page.css_urls,
        vec![
            "https://example.com/page/a.css".to_string(),
            "https://example.com/page/b.css".to_string(),
            "https://cdn.example.net/d.css".to_string(),
        ]
    );
}

#[test]
fn stylesheets_truncated_to_first_n_in_document_order() {
    let mut html = String::new();
    for i in 0..30 {
        html.push_str(&format!("<link rel=\"stylesheet\" href=\"s{}.css\">", i));
    }
    let page = parse_page(&html, BASE, 20);
    assert_eq!(page.css_urls.len(), 20);
    assert_eq!(page.css_urls[0], "https://example.com/page/s0.css");
    assert_eq!(page.css_urls[19], "https://example.com/page/s19.css");
}

#[test]
fn inline_styles_contribute_font_faces() {
    let html = "<style>@font-face { font-family: Inline; src: url(in.woff2); }</style>\
                <style>@font-face { font-family: Second; src: url(two.woff2); }</style>";
    let page = parse_page(html, BASE, 20);
    assert_eq!(page.inline_faces.len(), 2);
    assert_eq!(page.inline_faces[0].family, "Inline");
    assert_eq!(page.inline_faces[0].url, "https://example.com/page/in.woff2");
    assert_eq!(page.inline_faces[1].family, "Second");
}

#[test]
fn a_font_face_block_may_span_style_elements() {
    let html = "<style>@font-face { font-family: Sp; src: url(sp.woff2); </style>\
                <style>}</style>";
    let page = parse_page(html, BASE, 20);
    assert_eq!(page.inline_faces.len(), 1);
    assert_eq!(page.inline_faces[0].family, "Sp");
}

#[test]
fn malformed_markup_does_not_panic() {
    let page = parse_page("<<<<link rel=</html foo", "https://example.com/", 20);
    assert_eq!(page.favicons.len(), 0);
    assert_eq!(page.css_urls.len(), 0);
}

#[test]
fn link_without_href_is_skipped() {
    let html = "<link rel=\"icon\">";
    let page = parse_page(html, "https://example.com/", 20);
    assert_eq!(page.favicons.len(), 0);
}
